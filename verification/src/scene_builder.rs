//! Turns the expressions of a schematic into what is drawn and what can be selected.

use crate::double::ratio;
use crate::double::Double;
use crate::geometry::Bounds;
use crate::geometry::Point;
use crate::plane::readable_text_rotation;
use crate::plane::rotate_about;
use crate::plane::Query;
use crate::plane::Reply;
use crate::primitives::bounds_from;
use crate::primitives::symbol_index_bounds;
use crate::primitives::Primitive;
use crate::primitives::StrokeStyle;
use crate::primitives::TextRun;
use crate::readers::at_point;
use crate::readers::at_rotation;
use crate::readers::child_number;
use crate::readers::child_text;
use crate::readers::is_hidden;
use crate::readers::points_from_pts;
use crate::readers::text_align;
use crate::readers::text_italic;
use crate::readers::text_size;
use crate::readers::TextAlign;
use crate::scene::kicad_item_type;
use crate::scene::object_properties;
use crate::scene::object_search_text;
use crate::scene::role_name;
use crate::scene::ColorRole;
use crate::scene::ObjectKind;
use crate::scene::ObjectProperty;
use crate::sexp::Node;
use crate::text_box::if_positive;
use crate::text_box::kicad_text_box_for;
use crate::text_box::local_label_index_bounds;
use crate::text_box::shown_text;
use crate::text_box::text_anchor_pen_width;
use crate::text_box::text_stroke_width;
use crate::text_box::unit;
use vstd::prelude::*;

verus! {

/// Something that can be selected.
pub struct SceneObject {
    pub uuid: String,
    pub kind: ObjectKind,
    pub item_type: i32,
    pub label: String,
    pub search_text: String,
    pub properties: Vec<ObjectProperty>,
    pub bounds: Bounds,
    /// The box by which the object is indexed. It is wider than what is drawn.
    pub index_bounds: Bounds,
    /// The box by which the object enters the index.
    pub initial_index_bounds: Bounds,
    /// The first of the primitives that draw the object.
    pub first: usize,
    /// One behind the last of them.
    pub end: usize,
}

/// Something that can be selected, as a value.
pub ghost struct Thing {
    pub uuid: Seq<char>,
    pub kind: ObjectKind,
    pub item_type: int,
    pub label: Seq<char>,
    pub search_text: Seq<char>,
    pub properties: Seq<(Seq<char>, Seq<char>)>,
    pub bounds: Bounds,
    pub index_bounds: Bounds,
    pub initial_index_bounds: Bounds,
    pub first: int,
    pub end: int,
}

impl SceneObject {
    pub open spec fn model(self) -> Thing {
        Thing {
            uuid: self.uuid@,
            kind: self.kind,
            item_type: self.item_type as int,
            label: self.label@,
            search_text: self.search_text@,
            properties: crate::scene::property_lines(self.properties@),
            bounds: self.bounds,
            index_bounds: self.index_bounds,
            initial_index_bounds: self.initial_index_bounds,
            first: self.first as int,
            end: self.end as int,
        }
    }

    pub open spec fn wf(self) -> bool {
        self.bounds.wf() && self.index_bounds.wf() && self.initial_index_bounds.wf()
    }
}

/// The objects as values.
pub open spec fn things(objects: Seq<SceneObject>) -> Seq<Thing> {
    objects.map_values(|o: SceneObject| o.model())
}

/// A picture: what is drawn and what can be selected.
#[verifier::ext_equal]
pub ghost struct Picture {
    pub shapes: Seq<crate::primitives::Shape>,
    pub things: Seq<Thing>,
}

/// A picture in the making.
pub struct SceneBuilder {
    pub primitives: Vec<Primitive>,
    pub objects: Vec<SceneObject>,
}

impl SceneBuilder {
    pub open spec fn view(self) -> Picture {
        Picture {
            shapes: crate::primitives::shapes(self.primitives@),
            things: things(self.objects@),
        }
    }

    pub open spec fn wf(self) -> bool {
        &&& crate::primitives::all_wf(self.primitives@)
        &&& forall|i: int| 0 <= i < self.objects@.len() ==> (#[trigger] self.objects@[i]).wf()
        &&& forall|i: int|
            0 <= i < self.objects@.len() ==> (#[trigger] self.objects@[i]).first
                <= self.objects@[i].end <= self.primitives@.len()
    }

    pub fn new() -> (r: SceneBuilder)
        ensures
            r.wf(),
            r@.shapes.len() == 0,
            r@.things.len() == 0,
    {
        SceneBuilder { primitives: Vec::new(), objects: Vec::new() }
    }

    /// Draws one more primitive.
    pub fn push(&mut self, primitive: Primitive)
        requires
            old(self).wf(),
            primitive.wf(),
        ensures
            final(self).wf(),
            final(self)@ == old(self)@.drawn(primitive.model()),
    {
        let ghost before = self.primitives@;
        self.primitives.push(primitive);
        proof {
            assert(crate::primitives::shapes(self.primitives@) =~= crate::primitives::shapes(
                before,
            ).push(primitive.model()));
        }
    }
}

/// The width of an item's stroke, where the file gives one above zero.
pub open spec fn stroke_of(node: crate::sexp::Sexp, default: Double) -> Double {
    match crate::text_box::positive(
        match node.first("stroke"@) {
            Some(stroke) => stroke.first_number("width"@),
            None => None,
        },
    ) {
        Some(width) => width,
        None => default,
    }
}

/// The width of an item's stroke.
pub fn stroke_width(node: &Node, default: Double) -> (r: Double)
    requires
        node.wf(),
        crate::plane::plain(default),
    ensures
        r == stroke_of(node@, default),
        crate::plane::plain(r),
{
    let width = match node.find("stroke") {
        Some(stroke) => if_positive(child_number(stroke, "width")),
        None => None,
    };
    match width {
        Some(width) => width,
        None => default,
    }
}

/// How far beyond its text a global label is indexed.
pub open spec fn label_guard(node: crate::sexp::Sexp) -> Double {
    let size = crate::readers::size_of(node, crate::text_box::usual_size());
    let q = crate::text_box::quantum();
    let pen = crate::text_box::anchor_pen(node, size).spec_quotient(q).spec_round().spec_product(
        q,
    ).spec_product(crate::double::spec_ratio(3, 2));
    pen.spec_quotient(q).spec_round().spec_product(q)
}

fn find_label_guard(node: &Node) -> (r: Double)
    requires
        node.wf(),
    ensures
        r == label_guard(node@),
        r.wf(),
        r.within(0x10_0000),
{
    let size = text_size(node, ratio(127, 100));
    let q = unit();
    let pen = text_anchor_pen_width(node, size).divided_by(q).rounded_away().times(q).times(
        ratio(3, 2),
    );
    pen.divided_by(q).rounded_away().times(q)
}

/// The box by which an object is indexed: that of its text for text and local labels, that of its
/// parts for a symbol, and a wider one for what is drawn with a pen.
pub open spec fn index_box<F: Fn(Query) -> Reply>(
    f: F,
    node: crate::sexp::Sexp,
    kind: ObjectKind,
    shapes: Seq<crate::primitives::Shape>,
    combined: Bounds,
) -> Bounds {
    match kind {
        ObjectKind::Symbol => or_box(crate::primitives::symbol_box(f, node, shapes), combined),
        ObjectKind::Bus | ObjectKind::Wire | ObjectKind::BusEntry => {
            let least = crate::double::spec_ratio(2286, 10000);
            let b = crate::primitives::inflated(
                combined,
                crate::geometry::spec_greater(stroke_of(node, least), least),
            );
            let more = crate::text_box::quantum();
            Bounds { max_x: b.max_x.spec_sum(more), max_y: b.max_y.spec_sum(more), ..b }
        },
        ObjectKind::NoConnect => crate::primitives::inflated(
            combined,
            crate::double::spec_ratio(2286, 10000),
        ),
        ObjectKind::Label => if node.is_a("global_label"@) {
            crate::primitives::inflated(combined, label_guard(node))
        } else if node.is_a("label"@) {
            or_box(crate::text_box::label_box(f, node), combined)
        } else {
            combined
        },
        ObjectKind::Text => crate::primitives::inflated(
            or_box(
                crate::text_box::box_for(f, node, crate::text_box::shown(node, 1)),
                combined,
            ),
            crate::text_box::anchor_pen(
                node,
                crate::readers::size_of(node, crate::text_box::usual_size()),
            ),
        ),
        _ => combined,
    }
}

pub open spec fn or_box(b: Option<Bounds>, default: Bounds) -> Bounds {
    match b {
        Some(b) => b,
        None => default,
    }
}

fn inflate_by(b: Bounds, amount: Double) -> (r: Bounds)
    requires
        crate::plane::close_bounds(b),
        amount.wf(),
        amount.within(0x1000_0000),
    ensures
        r == crate::primitives::inflated(b, amount),
        r.min_x.wf() && r.min_x.within(0x3900_0000_0000),
        r.min_y.wf() && r.min_y.within(0x3900_0000_0000),
        r.max_x.wf() && r.max_x.within(0x3900_0000_0000),
        r.max_y.wf() && r.max_y.within(0x3900_0000_0000),
{
    Bounds {
        min_x: b.min_x.minus(amount),
        min_y: b.min_y.minus(amount),
        max_x: b.max_x.plus(amount),
        max_y: b.max_y.plus(amount),
    }
}

fn find_index_bounds<F: Fn(Query) -> Reply + Copy>(
    f: F,
    node: &Node,
    kind: ObjectKind,
    primitives: &Vec<Primitive>,
    start: usize,
    combined: Bounds,
) -> (r: Bounds)
    requires
        crate::plane::is_plane(f),
        node.wf(),
        crate::primitives::all_wf(primitives@),
        start <= primitives@.len(),
        combined.wf(),
        crate::plane::close_bounds(combined),
    ensures
        r == index_box(
            f,
            node@,
            kind,
            crate::primitives::shapes(primitives@).skip(start as int),
            combined,
        ),
        r.wf(),
{
    match kind {
        ObjectKind::Symbol => match symbol_index_bounds(f, node, primitives, start) {
            Some(b) => b,
            None => combined,
        },
        ObjectKind::Bus | ObjectKind::Wire | ObjectKind::BusEntry => {
            let least = ratio(2286, 10000);
            let width = crate::geometry::greater(stroke_width(node, least), least);
            let b = inflate_by(combined, width);
            let more = unit();
            Bounds { max_x: b.max_x.plus(more), max_y: b.max_y.plus(more), ..b }
        },
        ObjectKind::NoConnect => inflate_by(combined, ratio(2286, 10000)),
        ObjectKind::Label => {
            if node.is_a("global_label") {
                inflate_by(combined, find_label_guard(node))
            } else if node.is_a("label") {
                match local_label_index_bounds(f, node) {
                    Some(b) => b,
                    None => combined,
                }
            } else {
                combined
            }
        },
        ObjectKind::Text => {
            let b = match kicad_text_box_for(f, node, shown_text(node, 1)) {
                Some(b) => b,
                None => combined,
            };
            let size = text_size(node, ratio(127, 100));
            inflate_by(b, text_anchor_pen_width(node, size))
        },
        _ => combined,
    }
}

impl Picture {
    /// The picture with one more shape.
    pub open spec fn drawn(self, shape: crate::primitives::Shape) -> Picture {
        Picture { shapes: self.shapes.push(shape), ..self }
    }

    /// The picture with more shapes.
    pub open spec fn with(self, more: Seq<crate::primitives::Shape>) -> Picture {
        Picture { shapes: self.shapes + more, ..self }
    }

    /// The picture with the object that an expression describes, if it has an identifier and
    /// anything was drawn for it from `start` on.
    pub open spec fn with_object<F: Fn(Query) -> Reply>(
        self,
        f: F,
        node: crate::sexp::Sexp,
        kind: ObjectKind,
        label: Seq<char>,
        start: nat,
    ) -> Picture {
        let shapes = self.shapes.skip(start as int);
        match (
            node.first_text("uuid"@),
            crate::primitives::box_round(f, shapes, kind == ObjectKind::Symbol, shapes.len()),
        ) {
            (Some(uuid), Some(combined)) => if uuid.len() == 0 {
                self
            } else {
                let index_bounds = index_box(f, node, kind, shapes, combined);
                Picture {
                    things: self.things.push(
                        Thing {
                            uuid,
                            kind,
                            item_type: crate::scene::type_of(node.head(), kind),
                            label,
                            search_text: crate::scene::search_text(node, label, uuid),
                            properties: crate::scene::known_of(node),
                            bounds: combined,
                            index_bounds,
                            initial_index_bounds: index_bounds,
                            first: start as int,
                            end: self.shapes.len() as int,
                        },
                    ),
                    ..self
                }
            },
            _ => self,
        }
    }
}

impl SceneBuilder {
    /// Makes what was drawn from `start` on an object.
    pub fn push_object<F: Fn(Query) -> Reply + Copy>(
        &mut self,
        f: F,
        node: &Node,
        kind: ObjectKind,
        label: &str,
        start: usize,
    )
        requires
            old(self).wf(),
            crate::plane::is_plane(f),
            node.wf(),
            start <= old(self)@.shapes.len(),
        ensures
            final(self).wf(),
            final(self)@ == old(self)@.with_object(f, node@, kind, label@, start as nat),
            final(self).primitives == old(self).primitives,
    {
        let combined = bounds_from(f, &self.primitives, start, kind == ObjectKind::Symbol);
        let uuid = match child_text(node, "uuid") {
            Some(uuid) => uuid,
            None => {
                return ;
            },
        };
        if uuid.is_empty() {
            return ;
        }
        let combined = match combined {
            Some(combined) => combined,
            None => {
                return ;
            },
        };
        let index_bounds = find_index_bounds(f, node, kind, &self.primitives, start, combined);
        let ghost before = self.objects@;
        let object = SceneObject {
            uuid: uuid.to_owned(),
            kind,
            item_type: kicad_item_type(node, kind),
            label: label.to_owned(),
            search_text: object_search_text(node, label, uuid),
            properties: object_properties(node),
            bounds: combined,
            index_bounds,
            initial_index_bounds: index_bounds,
            first: start,
            end: self.primitives.len(),
        };
        self.objects.push(object);
        proof {
            assert(things(self.objects@) =~= things(before).push(object.model()));
        }
    }
}

/// The lines between points, one after the other.
pub open spec fn lines_between(points: Seq<Point>, style: StrokeStyle, n: nat) -> Seq<
    crate::primitives::Shape,
>
    decreases n,
{
    if n == 0 {
        Seq::empty()
    } else {
        lines_between(points, style, (n - 1) as nat).push(
            crate::primitives::Shape::Line { from: points[n - 1], to: points[n as int], style },
        )
    }
}

/// The usual width of a line: six mils.
pub open spec fn usual_width() -> Double {
    crate::double::spec_ratio(1524, 10000)
}

pub open spec fn style_of(width: Double, role: ColorRole) -> StrokeStyle {
    StrokeStyle { width_mm: width, role }
}

/// A document's own text of an item: the words, set at a position.
pub open spec fn words_at(
    node: crate::sexp::Sexp,
    position: Point,
    degrees: Double,
    size: Double,
    width: Double,
    align: TextAlign,
    role: ColorRole,
    text: Seq<char>,
) -> crate::primitives::Shape {
    crate::primitives::Shape::Text(
        crate::primitives::Words {
            position,
            rotation_deg: degrees,
            size_mm: size,
            stroke_width_mm: width,
            align,
            italic: crate::readers::italic_of(node),
            role,
            text,
        },
    )
}

/// The text of an item with the size, alignment and rotation that it is given.
pub open spec fn own_words(
    node: crate::sexp::Sexp,
    position: Point,
    role: ColorRole,
    text: Seq<char>,
) -> crate::primitives::Shape {
    words_at(
        node,
        position,
        crate::plane::readable(node.at_rotation()),
        crate::readers::size_of(node, crate::text_box::usual_size()),
        crate::text_box::stroke_of_text(node, crate::text_box::usual_size()),
        crate::readers::align_of(node),
        role,
        text,
    )
}

fn text_primitive(node: &Node, position: Point, role: ColorRole, text: String) -> (r: Primitive)
    requires
        node.wf(),
        crate::plane::held_point(position),
        text@.len() <= u32::MAX,
    ensures
        r.wf(),
        r.model() == own_words(node@, position, role, text@),
{
    let usual = ratio(127, 100);
    Primitive::Text(
        TextRun {
            position,
            rotation_deg: readable_text_rotation(at_rotation(node)),
            size_mm: text_size(node, usual),
            stroke_width_mm: text_stroke_width(node, usual),
            align: text_align(node),
            italic: text_italic(node),
            role,
            text,
        },
    )
}

impl Picture {
    /// A wire or a bus.
    pub open spec fn wire<F: Fn(Query) -> Reply>(
        self,
        f: F,
        node: crate::sexp::Sexp,
        role: ColorRole,
        kind: ObjectKind,
    ) -> Picture {
        let points = crate::readers::points_of(node);
        if points.len() < 2 {
            self
        } else {
            self.with(
                lines_between(
                    points,
                    style_of(stroke_of(node, usual_width()), role),
                    (points.len() - 1) as nat,
                ),
            ).with_object(f, node, kind, crate::scene::name_of_role(role), self.shapes.len())
        }
    }

    /// The step from a bus to a wire.
    pub open spec fn bus_entry<F: Fn(Query) -> Reply>(
        self,
        f: F,
        node: crate::sexp::Sexp,
    ) -> Picture {
        match (node.at_point(), node.first("size"@)) {
            (Some(at), Some(size)) => self.drawn(
                crate::primitives::Shape::Line {
                    from: at,
                    to: Point {
                        x: at.x.spec_sum(crate::connectivity::or_zero(size.part_number(1))),
                        y: at.y.spec_sum(crate::connectivity::or_zero(size.part_number(2))),
                    },
                    style: style_of(stroke_of(node, usual_width()), ColorRole::Bus),
                },
            ).with_object(f, node, ObjectKind::BusEntry, "bus entry"@, self.shapes.len()),
            _ => self,
        }
    }

    /// A dot where wires meet.
    pub open spec fn junction<F: Fn(Query) -> Reply>(
        self,
        f: F,
        node: crate::sexp::Sexp,
    ) -> Picture {
        match node.at_point() {
            Some(center) => {
                let diameter = match node.first_number("diameter"@) {
                    Some(diameter) => diameter,
                    None => crate::double::spec_ratio(9, 10),
                };
                self.drawn(
                    crate::primitives::Shape::Circle {
                        center,
                        radius: if Double::spec_zero().spec_less(diameter) {
                            diameter.spec_quotient(crate::double::nearest(2, 0))
                        } else {
                            crate::double::spec_ratio(4572, 10000)
                        },
                        style: style_of(Double::spec_zero(), ColorRole::Junction),
                        fill: true,
                    },
                ).with_object(f, node, ObjectKind::Junction, "junction"@, self.shapes.len())
            },
            None => self,
        }
    }

    /// A cross where nothing is connected.
    pub open spec fn no_connect<F: Fn(Query) -> Reply>(
        self,
        f: F,
        node: crate::sexp::Sexp,
    ) -> Picture {
        match node.at_point() {
            Some(c) => {
                let r = crate::double::spec_ratio(6096, 10000);
                let style = style_of(usual_width(), ColorRole::NoConnect);
                self.drawn(
                    crate::primitives::Shape::Line {
                        from: Point { x: c.x.spec_difference(r), y: c.y.spec_difference(r) },
                        to: Point { x: c.x.spec_sum(r), y: c.y.spec_sum(r) },
                        style,
                    },
                ).drawn(
                    crate::primitives::Shape::Line {
                        from: Point { x: c.x.spec_difference(r), y: c.y.spec_sum(r) },
                        to: Point { x: c.x.spec_sum(r), y: c.y.spec_difference(r) },
                        style,
                    },
                ).with_object(f, node, ObjectKind::NoConnect, "no connect"@, self.shapes.len())
            },
            None => self,
        }
    }

    /// Text on the sheet.
    pub open spec fn sheet_text<F: Fn(Query) -> Reply>(
        self,
        f: F,
        node: crate::sexp::Sexp,
    ) -> Picture {
        match node.at_point() {
            Some(position) => if node.hidden() {
                self
            } else {
                let text = crate::text_box::shown(node, 1);
                self.drawn(
                    own_words(
                        node,
                        crate::plane::rotated(
                            f,
                            Point {
                                x: Double::spec_zero(),
                                y: crate::double::spec_ratio(-1, 4),
                            },
                            position,
                            crate::plane::readable(node.at_rotation()),
                        ),
                        ColorRole::GraphicText,
                        text,
                    ),
                ).with_object(f, node, ObjectKind::Text, text, self.shapes.len())
            },
            None => self,
        }
    }
}

impl SceneBuilder {
    /// Draws a wire or a bus.
    pub fn draw_wire<F: Fn(Query) -> Reply + Copy>(
        &mut self,
        f: F,
        node: &Node,
        role: ColorRole,
        kind: ObjectKind,
    )
        requires
            old(self).wf(),
            crate::plane::is_plane(f),
            node.wf(),
        ensures
            final(self).wf(),
            final(self)@ == old(self)@.wire(f, node@, role, kind),
    {
        let points = points_from_pts(node);
        if points.len() < 2 {
            return ;
        }
        let ghost before = self@;
        let start: usize = self.primitives.len();
        let style = StrokeStyle { width_mm: stroke_width(node, ratio(1524, 10000)), role };
        let mut i: usize = 1;
        assert(self@ =~= before.with(lines_between(points@, style, 0)));
        while i < points.len()
            invariant
                1 <= i <= points@.len(),
                self.wf(),
                crate::primitives::plain_style(style),
                forall|k: int| 0 <= k < points@.len() ==> (#[trigger] points@[k]).is_read(),
                self@ == before.with(lines_between(points@, style, (i - 1) as nat)),
                start == before.shapes.len(),
            decreases points@.len() - i,
        {
            assert(points@[i - 1].is_read() && points@[i as int].is_read());
            self.push(Primitive::Line { from: points[i - 1], to: points[i], style });
            assert(self@ =~= before.with(lines_between(points@, style, i as nat)));
            i = i + 1;
        }
        self.push_object(f, node, kind, role_name(role), start);
    }

    /// Draws the step from a bus to a wire.
    pub fn draw_bus_entry<F: Fn(Query) -> Reply + Copy>(&mut self, f: F, node: &Node)
        requires
            old(self).wf(),
            crate::plane::is_plane(f),
            node.wf(),
        ensures
            final(self).wf(),
            final(self)@ == old(self)@.bus_entry(f, node@),
    {
        let at = match at_point(node) {
            Some(at) => at,
            None => {
                return ;
            },
        };
        let size = match node.find("size") {
            Some(size) => size,
            None => {
                return ;
            },
        };
        let start: usize = self.primitives.len();
        let end = Point {
            x: at.x.plus(or_nought(size.get_number(1))),
            y: at.y.plus(or_nought(size.get_number(2))),
        };
        let width = stroke_width(node, ratio(1524, 10000));
        self.push(
            Primitive::Line {
                from: at,
                to: end,
                style: StrokeStyle { width_mm: width, role: ColorRole::Bus },
            },
        );
        self.push_object(f, node, ObjectKind::BusEntry, "bus entry", start);
    }

    /// Draws a dot where wires meet.
    pub fn draw_junction<F: Fn(Query) -> Reply + Copy>(&mut self, f: F, node: &Node)
        requires
            old(self).wf(),
            crate::plane::is_plane(f),
            node.wf(),
        ensures
            final(self).wf(),
            final(self)@ == old(self)@.junction(f, node@),
    {
        let center = match at_point(node) {
            Some(center) => center,
            None => {
                return ;
            },
        };
        let diameter = match child_number(node, "diameter") {
            Some(diameter) => diameter,
            None => ratio(9, 10),
        };
        let start: usize = self.primitives.len();
        let radius = if crate::kicad_font::zero().less(diameter) {
            diameter.divided_by(Double::from_int(2))
        } else {
            ratio(4572, 10000)
        };
        self.push(
            Primitive::Circle {
                center,
                radius,
                style: StrokeStyle {
                    width_mm: crate::kicad_font::zero(),
                    role: ColorRole::Junction,
                },
                fill: true,
            },
        );
        self.push_object(f, node, ObjectKind::Junction, "junction", start);
    }

    /// Draws a cross where nothing is connected.
    pub fn draw_no_connect<F: Fn(Query) -> Reply + Copy>(&mut self, f: F, node: &Node)
        requires
            old(self).wf(),
            crate::plane::is_plane(f),
            node.wf(),
        ensures
            final(self).wf(),
            final(self)@ == old(self)@.no_connect(f, node@),
    {
        let center = match at_point(node) {
            Some(center) => center,
            None => {
                return ;
            },
        };
        let start: usize = self.primitives.len();
        let radius = ratio(6096, 10000);
        let left = center.x.minus(radius);
        let right = center.x.plus(radius);
        let top = center.y.minus(radius);
        let bottom = center.y.plus(radius);
        let style = StrokeStyle { width_mm: ratio(1524, 10000), role: ColorRole::NoConnect };
        self.push(
            Primitive::Line {
                from: Point { x: left, y: top },
                to: Point { x: right, y: bottom },
                style,
            },
        );
        self.push(
            Primitive::Line {
                from: Point { x: left, y: bottom },
                to: Point { x: right, y: top },
                style,
            },
        );
        self.push_object(f, node, ObjectKind::NoConnect, "no connect", start);
    }

    /// Draws text on the sheet.
    pub fn draw_top_level_text<F: Fn(Query) -> Reply + Copy>(&mut self, f: F, node: &Node)
        requires
            old(self).wf(),
            crate::plane::is_plane(f),
            node.wf(),
        ensures
            final(self).wf(),
            final(self)@ == old(self)@.sheet_text(f, node@),
    {
        if is_hidden(node) {
            return ;
        }
        let position = match at_point(node) {
            Some(position) => position,
            None => {
                return ;
            },
        };
        let text = shown_text(node, 1);
        let rotation = readable_text_rotation(at_rotation(node));
        let start: usize = self.primitives.len();
        let above = Point { x: crate::kicad_font::zero(), y: ratio(-1, 4) };
        let at = rotate_about(f, above, position, rotation);
        self.push(text_primitive(node, at, ColorRole::GraphicText, text.to_owned()));
        self.push_object(f, node, ObjectKind::Text, text, start);
    }
}

fn or_nought(n: Option<Double>) -> (r: Double)
    requires
        n matches Some(d) ==> d.wf() && d.within(2000),
    ensures
        r == crate::connectivity::or_zero(n),
        r.wf(),
        r.within(2000),
{
    match n {
        Some(n) => n,
        None => crate::kicad_font::zero(),
    }
}

} // verus!
