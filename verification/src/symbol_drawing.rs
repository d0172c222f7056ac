//! Symbols: the graphics, pins and texts of their library definitions, placed on a sheet.

use crate::arcs::normalize_kicad_arc;
use crate::attachment::find_library;
use crate::attachment::symbol_transform;
use crate::attachment::symbol_unit;
use crate::attachment::symbol_unit_matches;
use crate::attachment::Placement;
use crate::double::ratio;
use crate::double::Double;
use crate::geometry::Bounds;
use crate::geometry::Point;
use crate::plane::ask;
use crate::plane::opposes;
use crate::plane::readable_text_rotation;
use crate::plane::rotate_about;
use crate::plane::Query;
use crate::plane::Reply;
use crate::primitives::Primitive;
use crate::primitives::StrokeStyle;
use crate::primitives::TextRun;
use crate::readers::at_point;
use crate::readers::at_rotation;
use crate::readers::child_number;
use crate::readers::graphic_fill_in_pass;
use crate::readers::is_hidden;
use crate::readers::points_from_pts;
use crate::readers::tag_point;
use crate::readers::text_align;
use crate::readers::text_italic;
use crate::readers::text_size;
use crate::readers::GraphicPass;
use crate::readers::TextAlign;
use crate::scene::ColorRole;
use crate::scene::ObjectKind;
use crate::scene_builder::stroke_width;
use crate::scene_builder::SceneBuilder;
use crate::scene_builder::SceneObject;
use crate::sexp::Node;
use crate::text::same;
use crate::text_box::pin_number_text_offset;
use crate::text_box::shown_text;
use crate::text_box::symbol_field_plot_position;
use crate::text_box::symbol_initial_index_bounds;
use crate::text_box::text_stroke_width;
use vstd::prelude::*;

verus! {

/// What is shown at the pins of a symbol.
#[derive(Clone, Copy, PartialEq, Eq, Structural, Debug)]
pub struct PinTextOptions {
    pub name_offset: Double,
    pub show_names: bool,
    pub show_numbers: bool,
}

/// What a definition says of the texts at its pins.
pub open spec fn pin_options(node: crate::sexp::Sexp) -> PinTextOptions {
    PinTextOptions {
        name_offset: match node.first("pin_names"@) {
            Some(names) => match names.first_number("offset"@) {
                Some(offset) => offset,
                None => crate::double::spec_ratio(508, 1000),
            },
            None => crate::double::spec_ratio(508, 1000),
        },
        show_names: match node.first("pin_names"@) {
            Some(names) => names.first("hide"@) is None,
            None => true,
        },
        show_numbers: match node.first("pin_numbers"@) {
            Some(numbers) => numbers.first("hide"@) is None,
            None => true,
        },
    }
}

impl PinTextOptions {
    pub open spec fn wf(self) -> bool {
        self.name_offset.wf() && self.name_offset.within(2000)
    }

    /// What a definition says of the texts at its pins.
    pub fn from_symbol(node: &Node) -> (r: PinTextOptions)
        requires
            node.wf(),
        ensures
            r == pin_options(node@),
            r.wf(),
    {
        let names = node.find("pin_names");
        let numbers = node.find("pin_numbers");
        let mut name_offset = ratio(508, 1000);
        let mut show_names: bool = true;
        if let Some(names) = names {
            if let Some(offset) = child_number(names, "offset") {
                name_offset = offset;
            }
            show_names = names.find("hide").is_none();
        }
        let mut show_numbers: bool = true;
        if let Some(numbers) = numbers {
            show_numbers = numbers.find("hide").is_none();
        }
        PinTextOptions { name_offset, show_names, show_numbers }
    }
}

/// A part of a definition that is drawn, with what is shown at its pins.
pub struct LibraryPart<'a> {
    pub node: &'a Node,
    pub options: PinTextOptions,
}

/// A part of a definition, as a value.
pub ghost struct Part {
    pub node: crate::sexp::Sexp,
    pub options: PinTextOptions,
}

/// The parts as values.
pub open spec fn parts(v: Seq<LibraryPart>) -> Seq<Part> {
    v.map_values(|p: LibraryPart| Part { node: p.node@, options: p.options })
}

pub open spec fn wf_parts(v: Seq<LibraryPart>) -> bool {
    forall|i: int| 0 <= i < v.len() ==> (#[trigger] v[i]).node.wf() && v[i].options.wf()
}

/// Those of the first `n` units that are drawn.
pub open spec fn drawn_units(
    units: Seq<crate::sexp::Sexp>,
    unit: nat,
    options: PinTextOptions,
    n: nat,
) -> Seq<Part>
    decreases n,
{
    if n == 0 {
        Seq::empty()
    } else {
        let before = drawn_units(units, unit, options, (n - 1) as nat);
        if crate::attachment::unit_matches(crate::text_box::shown(units[n - 1], 1), unit) {
            before.push(Part { node: units[n - 1], options })
        } else {
            before
        }
    }
}

/// The parts of a definition: those of the definitions that it extends, at most `depth` of them,
/// then itself, then its units.
pub open spec fn parts_of(
    definition: crate::sexp::Sexp,
    libraries: Seq<crate::sexp::Sexp>,
    unit: nat,
    depth: nat,
) -> Seq<Part>
    decreases depth,
{
    let inherited = if depth == 0 {
        Seq::empty()
    } else {
        match definition.first_text("extends"@) {
            Some(parent) => match crate::attachment::library_from(
                libraries,
                parent,
                libraries.len(),
            ) {
                Some(parent) => parts_of(parent, libraries, unit, (depth - 1) as nat),
                None => Seq::empty(),
            },
            None => Seq::empty(),
        }
    };
    let options = pin_options(definition);
    let units = definition.tagged("symbol"@);
    inherited.push(Part { node: definition, options }) + drawn_units(
        units,
        unit,
        options,
        units.len(),
    )
}

/// Collects the parts of a definition.
pub fn collect_library_nodes<'a>(
    definition: &'a Node,
    libraries: &Vec<&'a Node>,
    unit: u32,
    depth: usize,
    nodes: &mut Vec<LibraryPart<'a>>,
)
    requires
        definition.wf(),
        forall|i: int| 0 <= i < libraries@.len() ==> (#[trigger] libraries@[i]).wf(),
        wf_parts(old(nodes)@),
    ensures
        parts(final(nodes)@) == parts(old(nodes)@) + parts_of(
            definition@,
            crate::sexp::ref_sexps(libraries@),
            unit as nat,
            depth as nat,
        ),
        wf_parts(final(nodes)@),
    decreases depth,
{
    let ghost before = parts(nodes@);
    let ghost known = crate::sexp::ref_sexps(libraries@);
    assert(before + Seq::<Part>::empty() =~= before);
    if depth > 0 {
        if let Some(parent) = definition.find_str("extends") {
            if let Some(parent) = find_library(libraries, parent) {
                collect_library_nodes(parent, libraries, unit, depth - 1, nodes);
            }
        }
    }
    let ghost inherited = parts(nodes@);
    let options = PinTextOptions::from_symbol(definition);
    let ghost earlier = nodes@;
    nodes.push(LibraryPart { node: definition, options });
    let ghost own = inherited.push(Part { node: definition@, options });
    assert(parts(nodes@) =~= own);
    let units = definition.find_all("symbol");
    let ghost all = definition@.tagged("symbol"@);
    let mut i: usize = 0;
    assert(own + Seq::<Part>::empty() =~= own);
    while i < units.len()
        invariant
            i <= units@.len(),
            crate::sexp::ref_sexps(units@) == all,
            forall|i: int| 0 <= i < units@.len() ==> (#[trigger] units@[i]).wf(),
            options.wf(),
            wf_parts(nodes@),
            parts(nodes@) == own + drawn_units(all, unit as nat, options, i as nat),
        decreases units@.len() - i,
    {
        assert(all[i as int] == units@[i as int]@);
        let ghost so_far = parts(nodes@);
        if symbol_unit_matches(shown_text(units[i], 1), unit) {
            nodes.push(LibraryPart { node: units[i], options });
            assert(parts(nodes@) =~= so_far.push(Part { node: all[i as int], options }));
        }
        assert(parts(nodes@) =~= own + drawn_units(all, unit as nat, options, (i + 1) as nat));
        i = i + 1;
    }
    assert(parts(nodes@) =~= before + parts_of(definition@, known, unit as nat, depth as nat));
}

/// The points where they come to lie.
pub open spec fn all_placed<F: Fn(Query) -> Reply>(
    f: F,
    points: Seq<Point>,
    at: Placement,
) -> Seq<Point> {
    points.map_values(|p: Point| crate::plane::placed(f, p, at))
}

fn place_all<F: Fn(Query) -> Reply + Copy>(f: F, points: &Vec<Point>, at: Placement) -> (r: Vec<Point>)
    requires
        crate::plane::is_plane(f),
    ensures
        r@ == all_placed(f, points@, at),
        crate::primitives::held_points(r@),
{
    let mut r: Vec<Point> = Vec::new();
    let mut i: usize = 0;
    while i < points.len()
        invariant
            i <= points@.len(),
            crate::plane::is_plane(f),
            r@ =~= all_placed(f, points@.take(i as int), at),
            crate::primitives::held_points(r@),
        decreases points@.len() - i,
    {
        r.push(ask(f, Query::Placed(points[i], at)).first);
        i = i + 1;
    }
    assert(points@.take(i as int) =~= points@);
    r
}

/// How the outline of a graphic is drawn: in the background it has none.
pub open spec fn graphic_style(node: crate::sexp::Sexp, pass: GraphicPass) -> StrokeStyle {
    crate::scene_builder::style_of(
        if pass == GraphicPass::Foreground {
            crate::scene_builder::stroke_of(node, crate::scene_builder::usual_width())
        } else {
            Double::spec_zero()
        },
        ColorRole::Symbol,
    )
}

/// How the outline of a graphic is drawn.
pub fn graphic_stroke(node: &Node, pass: GraphicPass) -> (r: StrokeStyle)
    requires
        node.wf(),
    ensures
        r == graphic_style(node@, pass),
        crate::primitives::plain_style(r),
{
    StrokeStyle {
        width_mm: if pass == GraphicPass::Foreground {
            stroke_width(node, ratio(1524, 10000))
        } else {
            crate::kicad_font::zero()
        },
        role: ColorRole::Symbol,
    }
}

/// What a rectangle draws in a pass.
pub open spec fn rectangle<F: Fn(Query) -> Reply>(
    f: F,
    node: crate::sexp::Sexp,
    at: Placement,
    pass: GraphicPass,
) -> Seq<crate::primitives::Shape> {
    match (node.tag_point("start"@), node.tag_point("end"@)) {
        (Some(start), Some(end)) => {
            let fill = crate::readers::filled_in(node, pass);
            if pass == GraphicPass::Background && !fill {
                Seq::empty()
            } else {
                seq![
                    crate::primitives::Shape::Rect {
                        bounds: Bounds::round_points(
                            seq![
                                crate::plane::placed(f, start, at),
                                crate::plane::placed(f, Point { x: end.x, y: start.y }, at),
                                crate::plane::placed(f, end, at),
                                crate::plane::placed(f, Point { x: start.x, y: end.y }, at),
                            ],
                            4,
                        ),
                        style: graphic_style(node, pass),
                        fill,
                    },
                ]
            }
        },
        _ => Seq::empty(),
    }
}

/// What a circle draws in a pass.
pub open spec fn circle<F: Fn(Query) -> Reply>(
    f: F,
    node: crate::sexp::Sexp,
    at: Placement,
    pass: GraphicPass,
) -> Seq<crate::primitives::Shape> {
    match node.tag_point("center"@) {
        Some(center) => {
            let fill = crate::readers::filled_in(node, pass);
            if pass == GraphicPass::Background && !fill {
                Seq::empty()
            } else {
                seq![
                    crate::primitives::Shape::Circle {
                        center: crate::plane::placed(f, center, at),
                        radius: crate::connectivity::or_zero(node.first_number("radius"@)),
                        style: graphic_style(node, pass),
                        fill,
                    },
                ]
            }
        },
        None => Seq::empty(),
    }
}

/// What a polyline draws in a pass.
pub open spec fn polyline<F: Fn(Query) -> Reply>(
    f: F,
    node: crate::sexp::Sexp,
    at: Placement,
    pass: GraphicPass,
) -> Seq<crate::primitives::Shape> {
    let points = all_placed(f, crate::readers::points_of(node), at);
    let fill = crate::readers::filled_in(node, pass);
    if points.len() < 2 || (pass == GraphicPass::Background && !fill) {
        Seq::empty()
    } else {
        seq![
            crate::primitives::Shape::Polyline {
                points,
                closed: points[0] == points[points.len() - 1] || fill,
                style: graphic_style(node, pass),
                fill,
            },
        ]
    }
}

pub open spec fn line_style(node: crate::sexp::Sexp) -> StrokeStyle {
    crate::scene_builder::style_of(
        crate::scene_builder::stroke_of(node, crate::scene_builder::usual_width()),
        ColorRole::Symbol,
    )
}

/// What an arc draws.
pub open spec fn arc<F: Fn(Query) -> Reply>(
    f: F,
    node: crate::sexp::Sexp,
    at: Placement,
) -> Seq<crate::primitives::Shape> {
    match (node.tag_point("start"@), node.tag_point("mid"@), node.tag_point("end"@)) {
        (Some(start), Some(mid), Some(end)) => {
            let through = crate::arcs::normalized(f, start, mid, end);
            seq![
                crate::primitives::Shape::Arc {
                    start: crate::plane::placed(f, through.0, at),
                    mid: crate::plane::placed(f, through.1, at),
                    end: crate::plane::placed(f, through.2, at),
                    style: line_style(node),
                },
            ]
        },
        _ => Seq::empty(),
    }
}

/// What a curve draws: four points or more.
pub open spec fn bezier<F: Fn(Query) -> Reply>(
    f: F,
    node: crate::sexp::Sexp,
    at: Placement,
) -> Seq<crate::primitives::Shape> {
    let points = all_placed(f, crate::readers::points_of(node), at);
    if points.len() >= 4 {
        seq![crate::primitives::Shape::Bezier { points, style: line_style(node) }]
    } else {
        Seq::empty()
    }
}

/// What one graphic of a part draws in a pass. Arcs and curves are drawn in the foreground.
pub open spec fn graphic<F: Fn(Query) -> Reply>(
    f: F,
    node: crate::sexp::Sexp,
    at: Placement,
    pass: GraphicPass,
) -> Seq<crate::primitives::Shape> {
    if node.is_a("rectangle"@) {
        rectangle(f, node, at, pass)
    } else if node.is_a("circle"@) {
        circle(f, node, at, pass)
    } else if node.is_a("polyline"@) {
        polyline(f, node, at, pass)
    } else if node.is_a("arc"@) && pass == GraphicPass::Foreground {
        arc(f, node, at)
    } else if node.is_a("bezier"@) && pass == GraphicPass::Foreground {
        bezier(f, node, at)
    } else {
        Seq::empty()
    }
}

/// What the first `n` graphics of a part draw in a pass, in the order of the library.
pub open spec fn graphics<F: Fn(Query) -> Reply>(
    f: F,
    items: Seq<crate::sexp::Sexp>,
    at: Placement,
    pass: GraphicPass,
    n: nat,
) -> Seq<crate::primitives::Shape>
    decreases n,
{
    if n == 0 {
        Seq::empty()
    } else {
        graphics(f, items, at, pass, (n - 1) as nat) + graphic(f, items[n - 1], at, pass)
    }
}

impl SceneBuilder {
    fn draw_library_rectangle<F: Fn(Query) -> Reply + Copy>(
        &mut self,
        f: F,
        node: &Node,
        at: Placement,
        pass: GraphicPass,
    )
        requires
            old(self).wf(),
            crate::plane::is_plane(f),
            node.wf(),
        ensures
            final(self).wf(),
            final(self)@ == old(self)@.with(rectangle(f, node@, at, pass)),
    {
        let ghost before = self@;
        assert(before.with(Seq::empty()) =~= before);
        let start = match tag_point(node, "start") {
            Some(start) => start,
            None => {
                return ;
            },
        };
        let end = match tag_point(node, "end") {
            Some(end) => end,
            None => {
                return ;
            },
        };
        let fill: bool = graphic_fill_in_pass(node, pass);
        if pass == GraphicPass::Background && !fill {
            return ;
        }
        let a = ask(f, Query::Placed(start, at)).first;
        let b = ask(f, Query::Placed(Point { x: end.x, y: start.y }, at)).first;
        let c = ask(f, Query::Placed(end, at)).first;
        let d = ask(f, Query::Placed(Point { x: start.x, y: end.y }, at)).first;
        let bounds = crate::plane::box_round_four(a, b, c, d);
        proof {
            let all = seq![a, b, c, d];
            assert(Bounds::round_points(all, 1) == Bounds::at(a));
            assert(Bounds::round_points(all, 2) == Bounds::round_points(all, 1).spec_include(b));
            assert(Bounds::round_points(all, 3) == Bounds::round_points(all, 2).spec_include(c));
        }
        self.push(Primitive::Rect { bounds, style: graphic_stroke(node, pass), fill });
        assert(self@ =~= before.with(rectangle(f, node@, at, pass)));
    }

    fn draw_library_circle<F: Fn(Query) -> Reply + Copy>(
        &mut self,
        f: F,
        node: &Node,
        at: Placement,
        pass: GraphicPass,
    )
        requires
            old(self).wf(),
            crate::plane::is_plane(f),
            node.wf(),
        ensures
            final(self).wf(),
            final(self)@ == old(self)@.with(circle(f, node@, at, pass)),
    {
        let ghost before = self@;
        assert(before.with(Seq::empty()) =~= before);
        let center = match tag_point(node, "center") {
            Some(center) => center,
            None => {
                return ;
            },
        };
        let radius = match child_number(node, "radius") {
            Some(radius) => radius,
            None => crate::kicad_font::zero(),
        };
        let fill: bool = graphic_fill_in_pass(node, pass);
        if pass == GraphicPass::Background && !fill {
            return ;
        }
        let center = ask(f, Query::Placed(center, at)).first;
        self.push(Primitive::Circle { center, radius, style: graphic_stroke(node, pass), fill });
        assert(self@ =~= before.with(circle(f, node@, at, pass)));
    }

    fn draw_library_polyline<F: Fn(Query) -> Reply + Copy>(
        &mut self,
        f: F,
        node: &Node,
        at: Placement,
        pass: GraphicPass,
    )
        requires
            old(self).wf(),
            crate::plane::is_plane(f),
            node.wf(),
        ensures
            final(self).wf(),
            final(self)@ == old(self)@.with(polyline(f, node@, at, pass)),
    {
        let ghost before = self@;
        assert(before.with(Seq::empty()) =~= before);
        let points = place_all(f, &points_from_pts(node), at);
        if points.len() < 2 {
            return ;
        }
        let fill: bool = graphic_fill_in_pass(node, pass);
        if pass == GraphicPass::Background && !fill {
            return ;
        }
        let closed: bool = points[0] == points[points.len() - 1] || fill;
        self.push(Primitive::Polyline { points, closed, style: graphic_stroke(node, pass), fill });
        assert(self@ =~= before.with(polyline(f, node@, at, pass)));
    }

    fn draw_library_arc<F: Fn(Query) -> Reply + Copy>(&mut self, f: F, node: &Node, at: Placement)
        requires
            old(self).wf(),
            crate::plane::is_plane(f),
            node.wf(),
        ensures
            final(self).wf(),
            final(self)@ == old(self)@.with(arc(f, node@, at)),
    {
        let ghost before = self@;
        assert(before.with(Seq::empty()) =~= before);
        let start = match tag_point(node, "start") {
            Some(start) => start,
            None => {
                return ;
            },
        };
        let mid = match tag_point(node, "mid") {
            Some(mid) => mid,
            None => {
                return ;
            },
        };
        let end = match tag_point(node, "end") {
            Some(end) => end,
            None => {
                return ;
            },
        };
        let (first, second, third) = normalize_kicad_arc(f, start, mid, end);
        let start = ask(f, Query::Placed(first, at)).first;
        let mid = ask(f, Query::Placed(second, at)).first;
        let end = ask(f, Query::Placed(third, at)).first;
        let style = StrokeStyle {
            width_mm: stroke_width(node, ratio(1524, 10000)),
            role: ColorRole::Symbol,
        };
        self.push(Primitive::Arc { start, mid, end, style });
        assert(self@ =~= before.with(arc(f, node@, at)));
    }

    fn draw_library_bezier<F: Fn(Query) -> Reply + Copy>(&mut self, f: F, node: &Node, at: Placement)
        requires
            old(self).wf(),
            crate::plane::is_plane(f),
            node.wf(),
        ensures
            final(self).wf(),
            final(self)@ == old(self)@.with(bezier(f, node@, at)),
    {
        let ghost before = self@;
        assert(before.with(Seq::empty()) =~= before);
        let points = place_all(f, &points_from_pts(node), at);
        if points.len() >= 4 {
            let style = StrokeStyle {
                width_mm: stroke_width(node, ratio(1524, 10000)),
                role: ColorRole::Symbol,
            };
            self.push(Primitive::Bezier { points, style });
            assert(self@ =~= before.with(bezier(f, node@, at)));
        }
    }

    fn draw_library_graphics<F: Fn(Query) -> Reply + Copy>(
        &mut self,
        f: F,
        node: &Node,
        at: Placement,
        pass: GraphicPass,
    )
        requires
            old(self).wf(),
            crate::plane::is_plane(f),
            node.wf(),
        ensures
            final(self).wf(),
            final(self)@ == old(self)@.with(
                graphics(f, node@.items(), at, pass, node@.items().len()),
            ),
    {
        let ghost before = self@;
        let n: usize = node.count();
        let ghost items = node@.items();
        let mut i: usize = 0;
        assert(before.with(Seq::empty()) =~= before);
        while i < n
            invariant
                i <= n,
                n == items.len(),
                items == node@.items(),
                self.wf(),
                crate::plane::is_plane(f),
                node.wf(),
                self@ == before.with(graphics(f, items, at, pass, i as nat)),
            decreases n - i,
        {
            let ghost so_far = self@;
            assert(so_far.with(Seq::empty()) =~= so_far);
            if let Some(drawing) = node.get(i) {
                if drawing.is_a("rectangle") {
                    self.draw_library_rectangle(f, drawing, at, pass);
                } else if drawing.is_a("circle") {
                    self.draw_library_circle(f, drawing, at, pass);
                } else if drawing.is_a("polyline") {
                    self.draw_library_polyline(f, drawing, at, pass);
                } else if drawing.is_a("arc") && pass == GraphicPass::Foreground {
                    self.draw_library_arc(f, drawing, at);
                } else if drawing.is_a("bezier") && pass == GraphicPass::Foreground {
                    self.draw_library_bezier(f, drawing, at);
                }
            }
            assert(self@ == so_far.with(graphic(f, items[i as int], at, pass)));
            assert(self@ =~= before.with(graphics(f, items, at, pass, (i + 1) as nat)));
            i = i + 1;
        }
    }
}

/// The angle of a text in a symbol that is turned itself.
pub open spec fn turned_text(node: crate::sexp::Sexp, at: Placement) -> Double {
    crate::plane::readable(at.rotation.spec_sum(node.at_rotation()))
}

fn find_turned_text(node: &Node, at: Placement) -> (r: Double)
    requires
        node.wf(),
        at.rotation.wf(),
        at.rotation.within(2000),
        at.rotation.exponent <= 0,
    ensures
        r == turned_text(node@, at),
        r.wf(),
{
    readable_text_rotation(at.rotation.plus(at_rotation(node)))
}

/// What a text of a part draws.
pub open spec fn part_text<F: Fn(Query) -> Reply>(
    f: F,
    node: crate::sexp::Sexp,
    at: Placement,
) -> Seq<crate::primitives::Shape> {
    match node.at_point() {
        Some(local) => if node.hidden() {
            Seq::empty()
        } else {
            seq![
                crate::scene_builder::words_at(
                    node,
                    crate::plane::placed(f, local, at),
                    turned_text(node, at),
                    crate::readers::size_of(node, crate::text_box::usual_size()),
                    crate::text_box::stroke_of_text(node, crate::text_box::usual_size()),
                    crate::readers::align_of(node),
                    ColorRole::Text,
                    crate::text_box::shown(node, 1),
                ),
            ]
        },
        None => Seq::empty(),
    }
}

/// The first part for `tag`, or the whole.
pub open spec fn part_or_whole(node: crate::sexp::Sexp, tag: Seq<char>) -> crate::sexp::Sexp {
    match node.first(tag) {
        Some(part) => part,
        None => node,
    }
}

/// The two ends of a pin within its definition: its tip, and where it meets the body.
pub open spec fn pin_ends<F: Fn(Query) -> Reply>(f: F, pin: crate::sexp::Sexp, tip: Point) -> (
    Point,
    Point,
) {
    let d = crate::plane::direction(f, pin.at_rotation());
    let length = match pin.first_number("length"@) {
        Some(length) => length,
        None => crate::double::spec_ratio(254, 100),
    };
    (
        tip,
        Point {
            x: tip.x.spec_sum(length.spec_product(d.x)),
            y: tip.y.spec_sum(length.spec_product(d.y)),
        },
    )
}

/// The name of a pin, where it is shown: inside the body, beginning or ending at the pin.
pub open spec fn pin_name<F: Fn(Query) -> Reply>(
    f: F,
    pin: crate::sexp::Sexp,
    tip: Point,
    at: Placement,
    options: PinTextOptions,
) -> Seq<crate::primitives::Shape> {
    let name = match pin.first_text("name"@) {
        Some(name) => name,
        None => ""@,
    };
    if !options.show_names || name == "~"@ || name.len() == 0 {
        Seq::empty()
    } else {
        let (outer, inner) = pin_ends(f, pin, tip);
        let d = crate::plane::direction(f, pin.at_rotation());
        let degrees = turned_text(pin, at);
        let axis = crate::plane::direction(f, degrees);
        let part = part_or_whole(pin, "name"@);
        seq![
            crate::scene_builder::words_at(
                part,
                crate::plane::placed(
                    f,
                    Point {
                        x: inner.x.spec_sum(options.name_offset.spec_product(d.x)),
                        y: inner.y.spec_sum(options.name_offset.spec_product(d.y)),
                    },
                    at,
                ),
                degrees,
                crate::readers::size_of(part, crate::double::nearest(1, 0)),
                crate::text_box::stroke_of_text(part, crate::double::nearest(1, 0)),
                if crate::plane::points_against(
                    f,
                    crate::plane::placed(f, inner, at),
                    crate::plane::placed(f, outer, at),
                    Point { x: axis.x, y: axis.y.spec_neg() },
                ) {
                    TextAlign::Right
                } else {
                    TextAlign::Left
                },
                ColorRole::PinName,
                name,
            ),
        ]
    }
}

/// The number of a pin, where it is shown: above the middle of the pin.
pub open spec fn pin_number<F: Fn(Query) -> Reply>(
    f: F,
    pin: crate::sexp::Sexp,
    tip: Point,
    at: Placement,
    options: PinTextOptions,
) -> Seq<crate::primitives::Shape> {
    let number = match pin.first_text("number"@) {
        Some(number) => number,
        None => ""@,
    };
    if !options.show_numbers || number.len() == 0 {
        Seq::empty()
    } else {
        let (outer, inner) = pin_ends(f, pin, tip);
        let a = crate::plane::placed(f, outer, at);
        let b = crate::plane::placed(f, inner, at);
        let two = crate::double::nearest(2, 0);
        let degrees = turned_text(pin, at);
        let part = part_or_whole(pin, "number"@);
        let size = crate::readers::size_of(part, crate::double::spec_ratio(9, 10));
        seq![
            crate::scene_builder::words_at(
                part,
                crate::plane::rotated(
                    f,
                    Point {
                        x: Double::spec_zero(),
                        y: crate::text_box::pin_number_offset(size).spec_neg(),
                    },
                    Point {
                        x: a.x.spec_sum(b.x).spec_quotient(two),
                        y: a.y.spec_sum(b.y).spec_quotient(two),
                    },
                    degrees,
                ),
                degrees,
                size,
                crate::text_box::stroke_of_text(part, crate::double::spec_ratio(9, 10)),
                TextAlign::Center,
                ColorRole::PinNumber,
                number,
            ),
        ]
    }
}

/// What a pin draws: its line, its name and its number.
pub open spec fn pin_shapes<F: Fn(Query) -> Reply>(
    f: F,
    pin: crate::sexp::Sexp,
    at: Placement,
    options: PinTextOptions,
) -> Seq<crate::primitives::Shape> {
    match pin.at_point() {
        Some(tip) => if pin.first("hide"@) is Some {
            Seq::empty()
        } else {
            let (outer, inner) = pin_ends(f, pin, tip);
            seq![
                crate::primitives::Shape::Line {
                    from: crate::plane::placed(f, outer, at),
                    to: crate::plane::placed(f, inner, at),
                    style: crate::scene_builder::style_of(
                        crate::scene_builder::usual_width(),
                        ColorRole::Symbol,
                    ),
                },
            ] + pin_name(f, pin, tip, at, options) + pin_number(f, pin, tip, at, options)
        },
        None => Seq::empty(),
    }
}

/// What the first `n` texts of a part draw.
pub open spec fn part_texts<F: Fn(Query) -> Reply>(
    f: F,
    texts: Seq<crate::sexp::Sexp>,
    at: Placement,
    n: nat,
) -> Seq<crate::primitives::Shape>
    decreases n,
{
    if n == 0 {
        Seq::empty()
    } else {
        part_texts(f, texts, at, (n - 1) as nat) + part_text(f, texts[n - 1], at)
    }
}

/// What the first `n` pins of a part draw.
pub open spec fn part_pins<F: Fn(Query) -> Reply>(
    f: F,
    pins: Seq<crate::sexp::Sexp>,
    at: Placement,
    options: PinTextOptions,
    n: nat,
) -> Seq<crate::primitives::Shape>
    decreases n,
{
    if n == 0 {
        Seq::empty()
    } else {
        part_pins(f, pins, at, options, (n - 1) as nat) + pin_shapes(f, pins[n - 1], at, options)
    }
}

/// All pins of a part.
pub open spec fn pins_of_part<F: Fn(Query) -> Reply>(f: F, part: Part, at: Placement) -> Seq<
    crate::primitives::Shape,
> {
    let pins = part.node.tagged("pin"@);
    part_pins(f, pins, at, part.options, pins.len())
}

/// The texts and the pins of a part.
pub open spec fn overlays<F: Fn(Query) -> Reply>(f: F, part: Part, at: Placement) -> Seq<
    crate::primitives::Shape,
> {
    let texts = part.node.tagged("text"@);
    part_texts(f, texts, at, texts.len()) + pins_of_part(f, part, at)
}

impl SceneBuilder {
    fn draw_library_text<F: Fn(Query) -> Reply + Copy>(&mut self, f: F, node: &Node, at: Placement)
        requires
            old(self).wf(),
            crate::plane::is_plane(f),
            node.wf(),
            at.rotation.wf(),
            at.rotation.within(2000),
            at.rotation.exponent <= 0,
        ensures
            final(self).wf(),
            final(self)@ == old(self)@.with(part_text(f, node@, at)),
    {
        let ghost before = self@;
        assert(before.with(Seq::empty()) =~= before);
        if is_hidden(node) {
            return ;
        }
        let local = match at_point(node) {
            Some(local) => local,
            None => {
                return ;
            },
        };
        let usual = ratio(127, 100);
        let run = TextRun {
            position: ask(f, Query::Placed(local, at)).first,
            rotation_deg: find_turned_text(node, at),
            size_mm: text_size(node, usual),
            stroke_width_mm: text_stroke_width(node, usual),
            align: text_align(node),
            italic: text_italic(node),
            role: ColorRole::Text,
            text: shown_text(node, 1).to_owned(),
        };
        self.push(Primitive::Text(run));
        assert(self@ =~= before.with(part_text(f, node@, at)));
    }

    fn draw_pin_name<F: Fn(Query) -> Reply + Copy>(
        &mut self,
        f: F,
        pin: &Node,
        tip: Point,
        inner: Point,
        at: Placement,
        options: PinTextOptions,
    )
        requires
            old(self).wf(),
            crate::plane::is_plane(f),
            pin.wf(),
            tip.is_read(),
            inner == pin_ends(f, pin@, tip).1,
            inner.x.wf(),
            inner.x.within(0x200_0000),
            inner.y.wf(),
            inner.y.within(0x200_0000),
            options.wf(),
            at.rotation.wf(),
            at.rotation.within(2000),
            at.rotation.exponent <= 0,
        ensures
            final(self).wf(),
            final(self)@ == old(self)@.with(pin_name(f, pin@, tip, at, options)),
    {
        let ghost before = self@;
        assert(before.with(Seq::empty()) =~= before);
        let part = match pin.find("name") {
            Some(part) => part,
            None => pin,
        };
        let name: &str = match pin.find("name") {
            Some(part) => shown_text(part, 1),
            None => {
                proof {
                    reveal_strlit("");
                }
                ""
            },
        };
        proof {
            reveal_strlit("");
        }
        if !options.show_names || same(name, "~") || name.is_empty() {
            return ;
        }
        let d = ask(f, Query::Direction(at_rotation(pin))).first;
        let degrees = find_turned_text(pin, at);
        let axis = ask(f, Query::Direction(degrees)).first;
        let local = Point {
            x: inner.x.plus(options.name_offset.times(d.x)),
            y: inner.y.plus(options.name_offset.times(d.y)),
        };
        let from = ask(f, Query::Placed(inner, at)).first;
        let to = ask(f, Query::Placed(tip, at)).first;
        let align = if opposes(f, from, to, Point { x: axis.x, y: axis.y.negated() }) {
            TextAlign::Right
        } else {
            TextAlign::Left
        };
        let one = Double::from_int(1);
        let run = TextRun {
            position: ask(f, Query::Placed(local, at)).first,
            rotation_deg: degrees,
            size_mm: text_size(part, one),
            stroke_width_mm: text_stroke_width(part, one),
            align,
            italic: text_italic(part),
            role: ColorRole::PinName,
            text: name.to_owned(),
        };
        self.push(Primitive::Text(run));
        assert(self@ =~= before.with(pin_name(f, pin@, tip, at, options)));
    }

    fn draw_pin_number<F: Fn(Query) -> Reply + Copy>(
        &mut self,
        f: F,
        pin: &Node,
        tip: Point,
        inner: Point,
        at: Placement,
        options: PinTextOptions,
    )
        requires
            old(self).wf(),
            crate::plane::is_plane(f),
            pin.wf(),
            inner == pin_ends(f, pin@, tip).1,
            at.rotation.wf(),
            at.rotation.within(2000),
            at.rotation.exponent <= 0,
        ensures
            final(self).wf(),
            final(self)@ == old(self)@.with(pin_number(f, pin@, tip, at, options)),
    {
        let ghost before = self@;
        assert(before.with(Seq::empty()) =~= before);
        let part = match pin.find("number") {
            Some(part) => part,
            None => pin,
        };
        let number: &str = match pin.find("number") {
            Some(part) => shown_text(part, 1),
            None => {
                proof {
                    reveal_strlit("");
                }
                ""
            },
        };
        proof {
            reveal_strlit("");
        }
        if !options.show_numbers || number.is_empty() {
            return ;
        }
        let size = text_size(part, ratio(9, 10));
        let up = pin_number_text_offset(size).negated();
        let a = ask(f, Query::Placed(tip, at)).first;
        let b = ask(f, Query::Placed(inner, at)).first;
        let two = Double::from_int(2);
        let middle = Point {
            x: a.x.plus(b.x).divided_by(two),
            y: a.y.plus(b.y).divided_by(two),
        };
        let degrees = find_turned_text(pin, at);
        let position = rotate_about(
            f,
            Point { x: crate::kicad_font::zero(), y: up },
            middle,
            degrees,
        );
        let run = TextRun {
            position,
            rotation_deg: degrees,
            size_mm: size,
            stroke_width_mm: text_stroke_width(part, ratio(9, 10)),
            align: TextAlign::Center,
            italic: text_italic(part),
            role: ColorRole::PinNumber,
            text: number.to_owned(),
        };
        self.push(Primitive::Text(run));
        assert(self@ =~= before.with(pin_number(f, pin@, tip, at, options)));
    }

    pub fn draw_library_pin<F: Fn(Query) -> Reply + Copy>(
        &mut self,
        f: F,
        pin: &Node,
        at: Placement,
        options: PinTextOptions,
    )
        requires
            old(self).wf(),
            crate::plane::is_plane(f),
            pin.wf(),
            options.wf(),
            at.rotation.wf(),
            at.rotation.within(2000),
            at.rotation.exponent <= 0,
        ensures
            final(self).wf(),
            final(self)@ == old(self)@.with(pin_shapes(f, pin@, at, options)),
    {
        let ghost before = self@;
        assert(before.with(Seq::empty()) =~= before);
        if pin.find("hide").is_some() {
            return ;
        }
        let tip = match at_point(pin) {
            Some(tip) => tip,
            None => {
                return ;
            },
        };
        let d = ask(f, Query::Direction(at_rotation(pin))).first;
        let length = match child_number(pin, "length") {
            Some(length) => length,
            None => ratio(254, 100),
        };
        let inner = Point {
            x: tip.x.plus(length.times(d.x)),
            y: tip.y.plus(length.times(d.y)),
        };
        let from = ask(f, Query::Placed(tip, at)).first;
        let to = ask(f, Query::Placed(inner, at)).first;
        self.push(
            Primitive::Line {
                from,
                to,
                style: StrokeStyle { width_mm: ratio(1524, 10000), role: ColorRole::Symbol },
            },
        );
        self.draw_pin_name(f, pin, tip, inner, at, options);
        self.draw_pin_number(f, pin, tip, inner, at, options);
        assert(self@ =~= before.with(pin_shapes(f, pin@, at, options)));
    }

    fn draw_pins_of_part<F: Fn(Query) -> Reply + Copy>(&mut self, f: F, part: &LibraryPart, at: Placement)
        requires
            old(self).wf(),
            crate::plane::is_plane(f),
            part.node.wf(),
            part.options.wf(),
            at.rotation.wf(),
            at.rotation.within(2000),
            at.rotation.exponent <= 0,
        ensures
            final(self).wf(),
            final(self)@ == old(self)@.with(
                pins_of_part(f, Part { node: part.node@, options: part.options }, at),
            ),
    {
        let ghost before = self@;
        let pins = part.node.find_all("pin");
        let ghost all = part.node@.tagged("pin"@);
        let mut i: usize = 0;
        assert(before.with(Seq::empty()) =~= before);
        while i < pins.len()
            invariant
                i <= pins@.len(),
                self.wf(),
                crate::plane::is_plane(f),
                all == crate::sexp::ref_sexps(pins@),
                forall|i: int| 0 <= i < pins@.len() ==> (#[trigger] pins@[i]).wf(),
                part.options.wf(),
                at.rotation.wf(),
                at.rotation.within(2000),
                at.rotation.exponent <= 0,
                self@ == before.with(part_pins(f, all, at, part.options, i as nat)),
            decreases pins@.len() - i,
        {
            assert(all[i as int] == pins@[i as int]@);
            self.draw_library_pin(f, pins[i], at, part.options);
            assert(self@ =~= before.with(part_pins(f, all, at, part.options, (i + 1) as nat)));
            i = i + 1;
        }
    }

    fn draw_library_overlays<F: Fn(Query) -> Reply + Copy>(
        &mut self,
        f: F,
        part: &LibraryPart,
        at: Placement,
    )
        requires
            old(self).wf(),
            crate::plane::is_plane(f),
            part.node.wf(),
            part.options.wf(),
            at.rotation.wf(),
            at.rotation.within(2000),
            at.rotation.exponent <= 0,
        ensures
            final(self).wf(),
            final(self)@ == old(self)@.with(
                overlays(f, Part { node: part.node@, options: part.options }, at),
            ),
    {
        let ghost before = self@;
        let texts = part.node.find_all("text");
        let ghost all = part.node@.tagged("text"@);
        let mut i: usize = 0;
        assert(before.with(Seq::empty()) =~= before);
        while i < texts.len()
            invariant
                i <= texts@.len(),
                self.wf(),
                crate::plane::is_plane(f),
                all == crate::sexp::ref_sexps(texts@),
                forall|i: int| 0 <= i < texts@.len() ==> (#[trigger] texts@[i]).wf(),
                at.rotation.wf(),
                at.rotation.within(2000),
                at.rotation.exponent <= 0,
                self@ == before.with(part_texts(f, all, at, i as nat)),
            decreases texts@.len() - i,
        {
            assert(all[i as int] == texts@[i as int]@);
            self.draw_library_text(f, texts[i], at);
            assert(self@ =~= before.with(part_texts(f, all, at, (i + 1) as nat)));
            i = i + 1;
        }
        self.draw_pins_of_part(f, part, at);
        assert(self@ =~= before.with(
            overlays(f, Part { node: part.node@, options: part.options }, at),
        ));
    }
}

/// What the first `n` parts draw in a pass.
pub open spec fn parts_graphics<F: Fn(Query) -> Reply>(
    f: F,
    parts: Seq<Part>,
    at: Placement,
    pass: GraphicPass,
    n: nat,
) -> Seq<crate::primitives::Shape>
    decreases n,
{
    if n == 0 {
        Seq::empty()
    } else {
        let items = parts[n - 1].node.items();
        parts_graphics(f, parts, at, pass, (n - 1) as nat) + graphics(
            f,
            items,
            at,
            pass,
            items.len(),
        )
    }
}

/// The texts and pins of the first `n` parts.
pub open spec fn parts_overlays<F: Fn(Query) -> Reply>(
    f: F,
    parts: Seq<Part>,
    at: Placement,
    n: nat,
) -> Seq<crate::primitives::Shape>
    decreases n,
{
    if n == 0 {
        Seq::empty()
    } else {
        parts_overlays(f, parts, at, (n - 1) as nat) + overlays(f, parts[n - 1], at)
    }
}

/// The pins of the first `n` parts.
pub open spec fn parts_pins<F: Fn(Query) -> Reply>(
    f: F,
    parts: Seq<Part>,
    at: Placement,
    n: nat,
) -> Seq<crate::primitives::Shape>
    decreases n,
{
    if n == 0 {
        Seq::empty()
    } else {
        parts_pins(f, parts, at, (n - 1) as nat) + pins_of_part(f, parts[n - 1], at)
    }
}

/// What a definition draws: the background of all its parts, their foreground, then their texts
/// and pins.
pub open spec fn definition_shapes<F: Fn(Query) -> Reply>(
    f: F,
    parts: Seq<Part>,
    at: Placement,
) -> Seq<crate::primitives::Shape> {
    parts_graphics(f, parts, at, GraphicPass::Background, parts.len()) + parts_graphics(
        f,
        parts,
        at,
        GraphicPass::Foreground,
        parts.len(),
    ) + parts_overlays(f, parts, at, parts.len())
}

/// What stands for a symbol whose definition is missing.
pub open spec fn missing_symbol(origin: Point) -> crate::primitives::Shape {
    let three = crate::double::nearest(3, 0);
    crate::primitives::Shape::Rect {
        bounds: Bounds {
            min_x: origin.x.spec_difference(three),
            min_y: origin.y.spec_difference(three),
            max_x: origin.x.spec_sum(three),
            max_y: origin.y.spec_sum(three),
        },
        style: crate::scene_builder::style_of(
            crate::scene_builder::usual_width(),
            ColorRole::Symbol,
        ),
        fill: false,
    }
}

/// What the first `n` fields of a symbol draw.
pub open spec fn symbol_fields<F: Fn(Query) -> Reply>(
    f: F,
    fields: Seq<crate::sexp::Sexp>,
    n: nat,
) -> Seq<crate::primitives::Shape>
    decreases n,
{
    if n == 0 {
        Seq::empty()
    } else {
        let before = symbol_fields(f, fields, (n - 1) as nat);
        match crate::text_box::field_position(f, fields[n - 1]) {
            Some(position) => if fields[n - 1].hidden() {
                before
            } else {
                before.push(
                    crate::scene_builder::own_words(
                        fields[n - 1],
                        position,
                        ColorRole::Text,
                        crate::text_box::shown(fields[n - 1], 2),
                    ),
                )
            },
            None => before,
        }
    }
}

/// What the first `n` fields of a symbol call it: its reference, or its library name.
pub open spec fn symbol_label(
    fields: Seq<crate::sexp::Sexp>,
    library: Seq<char>,
    n: nat,
) -> Seq<char>
    decreases n,
{
    if n == 0 {
        library
    } else if crate::text_box::shown(fields[n - 1], 1) == "Reference"@ && crate::text_box::shown(
        fields[n - 1],
        2,
    ).len() > 0 {
        crate::text_box::shown(fields[n - 1], 2)
    } else {
        symbol_label(fields, library, (n - 1) as nat)
    }
}

impl crate::scene_builder::Picture {
    /// The picture whose last object enters the index by another box.
    pub open spec fn entering(self, b: Option<Bounds>) -> crate::scene_builder::Picture {
        if self.things.len() == 0 {
            self
        } else {
            let last = self.things[self.things.len() - 1];
            crate::scene_builder::Picture {
                things: self.things.update(
                    self.things.len() - 1,
                    crate::scene_builder::Thing {
                        initial_index_bounds: crate::scene_builder::or_box(b, last.index_bounds),
                        ..last
                    },
                ),
                ..self
            }
        }
    }

    /// A symbol: its definition, or what stands for it, and its fields.
    pub open spec fn symbol<F: Fn(Query) -> Reply>(
        self,
        f: F,
        node: crate::sexp::Sexp,
        libraries: Seq<crate::sexp::Sexp>,
    ) -> crate::scene_builder::Picture {
        match (node.first_text("lib_id"@), node.at_point()) {
            (Some(library), Some(origin)) => {
                let at = crate::attachment::placement_of(node, origin);
                let body = match crate::attachment::library_from(
                    libraries,
                    library,
                    libraries.len(),
                ) {
                    Some(definition) => definition_shapes(
                        f,
                        parts_of(
                            definition,
                            libraries,
                            crate::attachment::unit_of(node),
                            libraries.len(),
                        ),
                        at,
                    ),
                    None => seq![missing_symbol(origin)],
                };
                let fields = node.properties();
                self.with(body).with(symbol_fields(f, fields, fields.len())).with_object(
                    f,
                    node,
                    ObjectKind::Symbol,
                    symbol_label(fields, library, fields.len()),
                    self.shapes.len(),
                ).entering(crate::text_box::first_symbol_box(f, node))
            },
            _ => self,
        }
    }

    /// The fields and the pins of a symbol, drawn once more over what hides them.
    pub open spec fn symbol_again<F: Fn(Query) -> Reply>(
        self,
        f: F,
        node: crate::sexp::Sexp,
        libraries: Seq<crate::sexp::Sexp>,
    ) -> crate::scene_builder::Picture {
        let fields = node.properties();
        let named = self.with(symbol_fields(f, fields, fields.len()));
        match (node.first_text("lib_id"@), node.at_point()) {
            (Some(library), Some(origin)) => match crate::attachment::library_from(
                libraries,
                library,
                libraries.len(),
            ) {
                Some(definition) => {
                    let parts = parts_of(
                        definition,
                        libraries,
                        crate::attachment::unit_of(node),
                        libraries.len(),
                    );
                    named.with(
                        parts_pins(
                            f,
                            parts,
                            crate::attachment::placement_of(node, origin),
                            parts.len(),
                        ),
                    )
                },
                None => named,
            },
            _ => named,
        }
    }
}

impl SceneBuilder {
    fn draw_library_definition<F: Fn(Query) -> Reply + Copy>(
        &mut self,
        f: F,
        nodes: &Vec<LibraryPart>,
        at: Placement,
    )
        requires
            old(self).wf(),
            crate::plane::is_plane(f),
            wf_parts(nodes@),
            at.rotation.wf(),
            at.rotation.within(2000),
            at.rotation.exponent <= 0,
        ensures
            final(self).wf(),
            final(self)@ == old(self)@.with(definition_shapes(f, parts(nodes@), at)),
    {
        let ghost before = self@;
        let ghost all = parts(nodes@);
        self.draw_parts(f, nodes, at, GraphicPass::Background);
        self.draw_parts(f, nodes, at, GraphicPass::Foreground);
        let ghost drawn = self@;
        let mut i: usize = 0;
        assert(drawn.with(Seq::empty()) =~= drawn);
        while i < nodes.len()
            invariant
                i <= nodes@.len(),
                self.wf(),
                crate::plane::is_plane(f),
                wf_parts(nodes@),
                all == parts(nodes@),
                at.rotation.wf(),
                at.rotation.within(2000),
                at.rotation.exponent <= 0,
                self@ == drawn.with(parts_overlays(f, all, at, i as nat)),
            decreases nodes@.len() - i,
        {
            assert(nodes@[i as int].node.wf());
            assert(all[i as int] == (Part {
                node: nodes@[i as int].node@,
                options: nodes@[i as int].options,
            }));
            self.draw_library_overlays(f, &nodes[i], at);
            assert(self@ =~= drawn.with(parts_overlays(f, all, at, (i + 1) as nat)));
            i = i + 1;
        }
        assert(self@ =~= before.with(definition_shapes(f, all, at)));
    }

    fn draw_parts<F: Fn(Query) -> Reply + Copy>(
        &mut self,
        f: F,
        nodes: &Vec<LibraryPart>,
        at: Placement,
        pass: GraphicPass,
    )
        requires
            old(self).wf(),
            crate::plane::is_plane(f),
            wf_parts(nodes@),
        ensures
            final(self).wf(),
            final(self)@ == old(self)@.with(
                parts_graphics(f, parts(nodes@), at, pass, nodes@.len()),
            ),
    {
        let ghost before = self@;
        let ghost all = parts(nodes@);
        let mut i: usize = 0;
        assert(before.with(Seq::empty()) =~= before);
        while i < nodes.len()
            invariant
                i <= nodes@.len(),
                self.wf(),
                crate::plane::is_plane(f),
                wf_parts(nodes@),
                all == parts(nodes@),
                self@ == before.with(parts_graphics(f, all, at, pass, i as nat)),
            decreases nodes@.len() - i,
        {
            assert(nodes@[i as int].node.wf());
            assert(all[i as int].node == nodes@[i as int].node@);
            self.draw_library_graphics(f, nodes[i].node, at, pass);
            assert(self@ =~= before.with(parts_graphics(f, all, at, pass, (i + 1) as nat)));
            i = i + 1;
        }
    }

    fn draw_symbol_fields<F: Fn(Query) -> Reply + Copy>(&mut self, f: F, node: &Node)
        requires
            old(self).wf(),
            crate::plane::is_plane(f),
            node.wf(),
        ensures
            final(self).wf(),
            final(self)@ == old(self)@.with(
                symbol_fields(f, node@.properties(), node@.properties().len()),
            ),
    {
        let ghost before = self@;
        let fields = node.find_all("property");
        let ghost all = node@.properties();
        let mut i: usize = 0;
        assert(before.with(Seq::empty()) =~= before);
        while i < fields.len()
            invariant
                i <= fields@.len(),
                self.wf(),
                crate::plane::is_plane(f),
                all == crate::sexp::ref_sexps(fields@),
                forall|i: int| 0 <= i < fields@.len() ==> (#[trigger] fields@[i]).wf(),
                self@ == before.with(symbol_fields(f, all, i as nat)),
            decreases fields@.len() - i,
        {
            assert(all[i as int] == fields@[i as int]@);
            let field = fields[i];
            if !is_hidden(field) {
                if let Some(position) = symbol_field_plot_position(f, field) {
                    let usual = ratio(127, 100);
                    let run = TextRun {
                        position,
                        rotation_deg: readable_text_rotation(at_rotation(field)),
                        size_mm: text_size(field, usual),
                        stroke_width_mm: text_stroke_width(field, usual),
                        align: text_align(field),
                        italic: text_italic(field),
                        role: ColorRole::Text,
                        text: shown_text(field, 2).to_owned(),
                    };
                    self.push(Primitive::Text(run));
                }
            }
            assert(self@ =~= before.with(symbol_fields(f, all, (i + 1) as nat)));
            i = i + 1;
        }
    }

    fn set_initial_bounds(&mut self, b: Option<Bounds>)
        requires
            old(self).wf(),
            b matches Some(b) ==> b.wf(),
        ensures
            final(self).wf(),
            final(self)@ == old(self)@.entering(b),
    {
        let n: usize = self.objects.len();
        if n == 0 {
            return ;
        }
        let ghost before = self.objects@;
        let ghost picture = self@;
        if let Some(object) = self.objects.pop() {
            assert(before[n - 1].wf());
            let bounds = match b {
                Some(b) => b,
                None => object.index_bounds,
            };
            let ghost entering = SceneObject { initial_index_bounds: bounds, ..object };
            self.objects.push(SceneObject { initial_index_bounds: bounds, ..object });
            proof {
                assert(self.objects@ =~= before.update(n - 1, entering));
                assert forall|i: int| 0 <= i < self.objects@.len() implies (
                #[trigger] self.objects@[i]).wf() by {
                    assert(before[i].wf());
                }
                assert(crate::scene_builder::things(self.objects@)
                    =~= crate::scene_builder::things(before).update(n - 1, entering.model()));
                assert(self@ =~= picture.entering(b));
            }
        }
    }

    /// Draws a symbol.
    pub fn draw_symbol<F: Fn(Query) -> Reply + Copy>(
        &mut self,
        f: F,
        node: &Node,
        libraries: &Vec<&Node>,
    )
        requires
            old(self).wf(),
            crate::plane::is_plane(f),
            node.wf(),
            forall|i: int| 0 <= i < libraries@.len() ==> (#[trigger] libraries@[i]).wf(),
        ensures
            final(self).wf(),
            final(self)@ == old(self)@.symbol(f, node@, crate::sexp::ref_sexps(libraries@)),
    {
        let library = match node.find_str("lib_id") {
            Some(library) => library,
            None => {
                return ;
            },
        };
        let origin = match at_point(node) {
            Some(origin) => origin,
            None => {
                return ;
            },
        };
        let ghost before = self@;
        let start: usize = self.primitives.len();
        let at = symbol_transform(node, origin);
        match find_library(libraries, library) {
            Some(definition) => {
                let unit: u32 = symbol_unit(node);
                let mut nodes: Vec<LibraryPart> = Vec::new();
                collect_library_nodes(definition, libraries, unit, libraries.len(), &mut nodes);
                proof {
                    let empty: Seq<LibraryPart> = Seq::empty();
                    assert(parts(empty) =~= Seq::empty());
                    assert(Seq::<Part>::empty() + parts_of(
                        definition@,
                        crate::sexp::ref_sexps(libraries@),
                        unit as nat,
                        libraries@.len(),
                    ) =~= parts_of(
                        definition@,
                        crate::sexp::ref_sexps(libraries@),
                        unit as nat,
                        libraries@.len(),
                    ));
                }
                self.draw_library_definition(f, &nodes, at);
            },
            None => {
                let three = Double::from_int(3);
                self.push(
                    Primitive::Rect {
                        bounds: Bounds {
                            min_x: origin.x.minus(three),
                            min_y: origin.y.minus(three),
                            max_x: origin.x.plus(three),
                            max_y: origin.y.plus(three),
                        },
                        style: StrokeStyle {
                            width_mm: ratio(1524, 10000),
                            role: ColorRole::Symbol,
                        },
                        fill: false,
                    },
                );
                assert(self@ =~= before.with(seq![missing_symbol(origin)]));
            },
        }
        self.draw_symbol_fields(f, node);
        let label = find_symbol_label(node, library);
        self.push_object(f, node, ObjectKind::Symbol, label, start);
        let entering = symbol_initial_index_bounds(f, node);
        self.set_initial_bounds(entering);
    }

    /// Draws the fields and the pins of a symbol once more.
    pub fn redraw_symbol_fields_and_pins<F: Fn(Query) -> Reply + Copy>(
        &mut self,
        f: F,
        node: &Node,
        libraries: &Vec<&Node>,
    )
        requires
            old(self).wf(),
            crate::plane::is_plane(f),
            node.wf(),
            forall|i: int| 0 <= i < libraries@.len() ==> (#[trigger] libraries@[i]).wf(),
        ensures
            final(self).wf(),
            final(self)@ == old(self)@.symbol_again(f, node@, crate::sexp::ref_sexps(libraries@)),
    {
        self.draw_symbol_fields(f, node);
        let library = match node.find_str("lib_id") {
            Some(library) => library,
            None => {
                return ;
            },
        };
        let origin = match at_point(node) {
            Some(origin) => origin,
            None => {
                return ;
            },
        };
        let definition = match find_library(libraries, library) {
            Some(definition) => definition,
            None => {
                return ;
            },
        };
        let at = symbol_transform(node, origin);
        let unit: u32 = symbol_unit(node);
        let mut nodes: Vec<LibraryPart> = Vec::new();
        collect_library_nodes(definition, libraries, unit, libraries.len(), &mut nodes);
        let ghost all = parts(nodes@);
        proof {
            let empty: Seq<LibraryPart> = Seq::empty();
            assert(parts(empty) =~= Seq::empty());
            assert(all =~= parts_of(
                definition@,
                crate::sexp::ref_sexps(libraries@),
                unit as nat,
                libraries@.len(),
            ));
        }
        let ghost before = self@;
        let mut i: usize = 0;
        assert(before.with(Seq::empty()) =~= before);
        while i < nodes.len()
            invariant
                i <= nodes@.len(),
                self.wf(),
                crate::plane::is_plane(f),
                wf_parts(nodes@),
                all == parts(nodes@),
                at.rotation.wf(),
                at.rotation.within(2000),
                at.rotation.exponent <= 0,
                self@ == before.with(parts_pins(f, all, at, i as nat)),
            decreases nodes@.len() - i,
        {
            assert(nodes@[i as int].node.wf());
            assert(all[i as int] == (Part {
                node: nodes@[i as int].node@,
                options: nodes@[i as int].options,
            }));
            self.draw_pins_of_part(f, &nodes[i], at);
            assert(self@ =~= before.with(parts_pins(f, all, at, (i + 1) as nat)));
            i = i + 1;
        }
    }
}

fn find_symbol_label<'a>(node: &'a Node, library: &'a str) -> (r: &'a str)
    requires
        node.wf(),
    ensures
        r@ == symbol_label(node@.properties(), library@, node@.properties().len()),
{
    let fields = node.find_all("property");
    let ghost all = node@.properties();
    let mut label: &str = library;
    let mut i: usize = 0;
    while i < fields.len()
        invariant
            i <= fields@.len(),
            all == crate::sexp::ref_sexps(fields@),
            forall|i: int| 0 <= i < fields@.len() ==> (#[trigger] fields@[i]).wf(),
            label@ == symbol_label(all, library@, i as nat),
        decreases fields@.len() - i,
    {
        assert(all[i as int] == fields@[i as int]@);
        let value = shown_text(fields[i], 2);
        if same(shown_text(fields[i], 1), "Reference") && !value.is_empty() {
            label = value;
        }
        i = i + 1;
    }
    label
}

} // verus!
