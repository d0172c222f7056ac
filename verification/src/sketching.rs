//! The graphics and texts of placed symbols and sheets: where they are drawn, and which lie below
//! which.

use crate::attachment::Placement;
use crate::geometry::Bounds;
use crate::geometry::Point;
use crate::plane::Query;
use crate::plane::Reply;
use crate::primitives::Shape;
use crate::readers::GraphicPass;
use crate::scene_builder::Picture;
use crate::symbol_drawing::Part;
use vstd::prelude::*;

verus! {

/// A rectangle, a circle or a line of at least two points, with all that it takes to draw it.
pub open spec fn is_sketch(g: crate::sexp::Sexp) -> bool {
    ||| g.is_a("rectangle"@) && g.tag_point("start"@) is Some && g.tag_point("end"@) is Some
    ||| g.is_a("circle"@) && g.tag_point("center"@) is Some && g.first_number("radius"@) is Some
    ||| g.is_a("polyline"@) && crate::readers::points_of(g).len() >= 2
}

/// The shape follows the graphic, placed on the sheet.
pub open spec fn follows<F: Fn(Query) -> Reply>(
    f: F,
    shape: Shape,
    g: crate::sexp::Sexp,
    at: Placement,
) -> bool {
    if g.is_a("rectangle"@) {
        let start = g.tag_point("start"@)->0;
        let end = g.tag_point("end"@)->0;
        shape matches Shape::Rect { bounds, .. } && bounds == Bounds::round_points(
            seq![
                crate::plane::placed(f, start, at),
                crate::plane::placed(f, Point { x: end.x, y: start.y }, at),
                crate::plane::placed(f, end, at),
                crate::plane::placed(f, Point { x: start.x, y: end.y }, at),
            ],
            4,
        )
    } else if g.is_a("circle"@) {
        shape matches Shape::Circle { center, radius, .. } && center == crate::plane::placed(
            f,
            g.tag_point("center"@)->0,
            at,
        ) && radius == g.first_number("radius"@)->0
    } else {
        shape matches Shape::Polyline { points, .. } && points.len()
            == crate::readers::points_of(g).len() && forall|i: int|
            0 <= i < points.len() ==> #[trigger] points[i] == crate::plane::placed(
                f,
                crate::readers::points_of(g)[i],
                at,
            )
    }
}

/// The shape is filled.
pub open spec fn is_filled(shape: Shape) -> bool {
    match shape {
        Shape::Rect { fill, .. } => fill,
        Shape::Circle { fill, .. } => fill,
        Shape::Polyline { fill, .. } => fill,
        _ => false,
    }
}

/// The shape has no line round it.
pub open spec fn is_bare(shape: Shape) -> bool {
    match shape {
        Shape::Rect { style, .. } => style.width_mm == crate::double::Double::spec_zero(),
        Shape::Circle { style, .. } => style.width_mm == crate::double::Double::spec_zero(),
        Shape::Polyline { style, .. } => style.width_mm == crate::double::Double::spec_zero(),
        _ => false,
    }
}

/// The graphic is filled as the word says.
pub open spec fn is_filled_as(g: crate::sexp::Sexp, kind: Seq<char>) -> bool {
    g.first("fill"@) matches Some(fill) && fill.first_text("type"@) == Some(kind)
}

proof fn lemma_words()
    ensures
        "rectangle"@ != "circle"@,
        "rectangle"@ != "polyline"@,
        "circle"@ != "polyline"@,
        "background"@ != "outline"@,
        "arc"@ != "rectangle"@,
        "arc"@ != "circle"@,
        "arc"@ != "polyline"@,
        "bezier"@ != "rectangle"@,
        "bezier"@ != "circle"@,
        "bezier"@ != "polyline"@,
        "bezier"@ != "arc"@,
{
    reveal_strlit("rectangle");
    reveal_strlit("circle");
    reveal_strlit("polyline");
    reveal_strlit("background");
    reveal_strlit("outline");
    reveal_strlit("arc");
    reveal_strlit("bezier");
    assert("rectangle"@.len() == 9 && "circle"@.len() == 6 && "polyline"@.len() == 8);
    assert("background"@.len() == 10 && "outline"@.len() == 7 && "arc"@.len() == 3);
    assert("bezier"@.len() == 6 && "bezier"@[0] == 'b' && "circle"@[0] == 'c');
}

proof fn lemma_sketch<F: Fn(Query) -> Reply>(f: F, g: crate::sexp::Sexp, at: Placement)
    requires
        is_sketch(g),
    ensures
        ({
            let front = crate::symbol_drawing::graphic(f, g, at, GraphicPass::Foreground);
            let back = crate::symbol_drawing::graphic(f, g, at, GraphicPass::Background);
            &&& front.len() == 1
            &&& follows(f, front[0], g, at)
            &&& is_filled(front[0]) <==> is_filled_as(g, "outline"@)
            &&& back.len() == (if is_filled_as(g, "background"@) {
                1int
            } else {
                0
            })
            &&& is_filled_as(g, "background"@) ==> follows(f, back[0], g, at) && is_filled(back[0])
                && is_bare(back[0])
        }),
{
    lemma_words();
    let points = crate::symbol_drawing::all_placed(f, crate::readers::points_of(g), at);
    assert(points.len() == crate::readers::points_of(g).len());
    assert forall|i: int| 0 <= i < points.len() implies #[trigger] points[i]
        == crate::plane::placed(f, crate::readers::points_of(g)[i], at) by {}
}

proof fn lemma_graphics<F: Fn(Query) -> Reply>(
    f: F,
    items: Seq<crate::sexp::Sexp>,
    at: Placement,
    pass: GraphicPass,
    n: nat,
    k: int,
    shape: Shape,
)
    requires
        0 <= k < n <= items.len(),
        crate::symbol_drawing::graphic(f, items[k], at, pass).contains(shape),
    ensures
        crate::symbol_drawing::graphics(f, items, at, pass, n).contains(shape),
    decreases n,
{
    if k < n - 1 {
        lemma_graphics(f, items, at, pass, (n - 1) as nat, k, shape);
    }
    crate::sequences::either_holds(
        crate::symbol_drawing::graphics(f, items, at, pass, (n - 1) as nat),
        crate::symbol_drawing::graphic(f, items[n - 1], at, pass),
        shape,
    );
}

proof fn lemma_parts<F: Fn(Query) -> Reply>(
    f: F,
    parts: Seq<Part>,
    at: Placement,
    pass: GraphicPass,
    n: nat,
    p: int,
    k: int,
    shape: Shape,
)
    requires
        0 <= p < n <= parts.len(),
        0 <= k < parts[p].node.items().len(),
        crate::symbol_drawing::graphic(f, parts[p].node.items()[k], at, pass).contains(shape),
    ensures
        crate::symbol_drawing::parts_graphics(f, parts, at, pass, n).contains(shape),
    decreases n,
{
    let items = parts[n - 1].node.items();
    if p < n - 1 {
        lemma_parts(f, parts, at, pass, (n - 1) as nat, p, k, shape);
    } else {
        lemma_graphics(f, items, at, pass, items.len(), k, shape);
    }
    crate::sequences::either_holds(
        crate::symbol_drawing::parts_graphics(f, parts, at, pass, (n - 1) as nat),
        crate::symbol_drawing::graphics(f, items, at, pass, items.len()),
        shape,
    );
}

/// A part of the symbol that is placed here.
pub open spec fn is_placed_part(
    node: crate::sexp::Sexp,
    libraries: Seq<crate::sexp::Sexp>,
    i: int,
    origin: Point,
    line: Seq<crate::sexp::Sexp>,
    part: crate::sexp::Sexp,
) -> bool {
    &&& crate::placing::is_instance(node, libraries, i, origin)
    &&& crate::placing::is_part(
        libraries[i],
        libraries,
        crate::attachment::unit_of(node),
        libraries.len(),
        line,
        part,
    )
}

proof fn lemma_placed<F: Fn(Query) -> Reply>(
    picture: Picture,
    f: F,
    node: crate::sexp::Sexp,
    libraries: Seq<crate::sexp::Sexp>,
    i: int,
    origin: Point,
    line: Seq<crate::sexp::Sexp>,
    part: crate::sexp::Sexp,
    k: int,
    pass: GraphicPass,
    shape: Shape,
) -> (r: (int, int))
    requires
        is_placed_part(node, libraries, i, origin, line, part),
        0 <= k < part.items().len(),
        crate::symbol_drawing::graphic(
            f,
            part.items()[k],
            crate::attachment::placement_of(node, origin),
            pass,
        ).contains(shape),
    ensures
        ({
            let all = picture.symbol(f, node, libraries).shapes;
            let parts = crate::symbol_drawing::parts_of(
                libraries[i],
                libraries,
                crate::attachment::unit_of(node),
                libraries.len(),
            );
            let back = crate::symbol_drawing::parts_graphics(
                f,
                parts,
                crate::attachment::placement_of(node, origin),
                GraphicPass::Background,
                parts.len(),
            );
            &&& 0 <= r.0 < all.len()
            &&& all[r.0] == shape
            &&& r.1 == picture.shapes.len() + back.len()
            &&& pass == GraphicPass::Background ==> r.0 < r.1
            &&& pass == GraphicPass::Foreground ==> r.1 <= r.0
        }),
{
    let name = node.first_text("lib_id"@)->0;
    let unit = crate::attachment::unit_of(node);
    let at = crate::attachment::placement_of(node, origin);
    crate::placing::meant_symbol_is_found(libraries, name, i);
    let x = Part { node: part, options: crate::symbol_drawing::pin_options(line.last()) };
    crate::placing::parts_are_drawn(libraries[i], libraries, unit, libraries.len(), x);
    let parts = crate::symbol_drawing::parts_of(libraries[i], libraries, unit, libraries.len());
    let p = choose|p: int| 0 <= p < parts.len() && parts[p] == x;
    lemma_parts(f, parts, at, pass, parts.len(), p, k, shape);
    let back = crate::symbol_drawing::parts_graphics(
        f,
        parts,
        at,
        GraphicPass::Background,
        parts.len(),
    );
    let front = crate::symbol_drawing::parts_graphics(
        f,
        parts,
        at,
        GraphicPass::Foreground,
        parts.len(),
    );
    let over = crate::symbol_drawing::parts_overlays(f, parts, at, parts.len());
    let fields = node.properties();
    let texts = crate::symbol_drawing::symbol_fields(f, fields, fields.len());
    let all = picture.symbol(f, node, libraries).shapes;
    let first = picture.shapes.len() as int;
    assert(all == picture.shapes + (back + front + over) + texts);
    if pass == GraphicPass::Background {
        let j = choose|j: int| 0 <= j < back.len() && back[j] == shape;
        assert(all[first + j] == shape);
        (first + j, first + back.len())
    } else {
        let j = choose|j: int| 0 <= j < front.len() && front[j] == shape;
        assert(all[first + back.len() + j] == shape);
        (first + back.len() + j, first + back.len())
    }
}

/// Every rectangle, circle and line of a placed symbol is drawn where the symbol stands. It is filled
/// with its own colour exactly if it says so.
pub proof fn graphics_are_drawn<F: Fn(Query) -> Reply>(
    picture: Picture,
    f: F,
    node: crate::sexp::Sexp,
    libraries: Seq<crate::sexp::Sexp>,
    i: int,
    origin: Point,
    line: Seq<crate::sexp::Sexp>,
    part: crate::sexp::Sexp,
    k: int,
)
    requires
        is_placed_part(node, libraries, i, origin, line, part),
        0 <= k < part.items().len(),
        is_sketch(part.items()[k]),
    ensures
        ({
            let at = crate::attachment::placement_of(node, origin);
            let all = picture.symbol(f, node, libraries).shapes;
            exists|j: int|
                0 <= j < all.len() && follows(f, #[trigger] all[j], part.items()[k], at) && (
                is_filled(all[j]) <==> is_filled_as(part.items()[k], "outline"@))
        }),
{
    let at = crate::attachment::placement_of(node, origin);
    let g = part.items()[k];
    lemma_sketch(f, g, at);
    let own = crate::symbol_drawing::graphic(f, g, at, GraphicPass::Foreground);
    assert(own.contains(own[0]));
    let (j, _) = lemma_placed(
        picture,
        f,
        node,
        libraries,
        i,
        origin,
        line,
        part,
        k,
        GraphicPass::Foreground,
        own[0],
    );
    let all = picture.symbol(f, node, libraries).shapes;
    assert(follows(f, all[j], g, at));
}

/// What a symbol fills in the colour of the background lies below every line of the symbol, and has
/// no line of its own there.
pub proof fn fillings_lie_below_lines<F: Fn(Query) -> Reply>(
    picture: Picture,
    f: F,
    node: crate::sexp::Sexp,
    libraries: Seq<crate::sexp::Sexp>,
    i: int,
    origin: Point,
    line: Seq<crate::sexp::Sexp>,
    part: crate::sexp::Sexp,
    k: int,
    other_line: Seq<crate::sexp::Sexp>,
    other: crate::sexp::Sexp,
    m: int,
)
    requires
        is_placed_part(node, libraries, i, origin, line, part),
        0 <= k < part.items().len(),
        is_sketch(part.items()[k]),
        is_filled_as(part.items()[k], "background"@),
        is_placed_part(node, libraries, i, origin, other_line, other),
        0 <= m < other.items().len(),
        is_sketch(other.items()[m]),
    ensures
        ({
            let at = crate::attachment::placement_of(node, origin);
            let all = picture.symbol(f, node, libraries).shapes;
            exists|low: int, high: int|
                #![trigger all[low], all[high]]
                0 <= low < high < all.len() && follows(f, all[low], part.items()[k], at)
                    && is_filled(all[low]) && is_bare(all[low]) && follows(
                    f,
                    all[high],
                    other.items()[m],
                    at,
                ) && (is_filled(all[high]) <==> is_filled_as(other.items()[m], "outline"@))
        }),
{
    let at = crate::attachment::placement_of(node, origin);
    let g = part.items()[k];
    let h = other.items()[m];
    lemma_sketch(f, g, at);
    lemma_sketch(f, h, at);
    let under = crate::symbol_drawing::graphic(f, g, at, GraphicPass::Background);
    let over = crate::symbol_drawing::graphic(f, h, at, GraphicPass::Foreground);
    assert(under.contains(under[0]));
    assert(over.contains(over[0]));
    let (low, a) = lemma_placed(
        picture,
        f,
        node,
        libraries,
        i,
        origin,
        line,
        part,
        k,
        GraphicPass::Background,
        under[0],
    );
    let (high, b) = lemma_placed(
        picture,
        f,
        node,
        libraries,
        i,
        origin,
        other_line,
        other,
        m,
        GraphicPass::Foreground,
        over[0],
    );
    let all = picture.symbol(f, node, libraries).shapes;
    assert(low < high);
    assert(follows(f, all[low], g, at));
}

/// Every curve of a placed symbol is drawn along its points, placed as the symbol is, and every arc
/// as an arc.
pub proof fn curves_are_drawn<F: Fn(Query) -> Reply>(
    picture: Picture,
    f: F,
    node: crate::sexp::Sexp,
    libraries: Seq<crate::sexp::Sexp>,
    i: int,
    origin: Point,
    line: Seq<crate::sexp::Sexp>,
    part: crate::sexp::Sexp,
    k: int,
)
    requires
        is_placed_part(node, libraries, i, origin, line, part),
        0 <= k < part.items().len(),
    ensures
        ({
            let at = crate::attachment::placement_of(node, origin);
            let all = picture.symbol(f, node, libraries).shapes;
            let g = part.items()[k];
            &&& g.is_a("bezier"@) && crate::readers::points_of(g).len() >= 4 ==> exists|j: int|
                0 <= j < all.len() && is_curve(f, #[trigger] all[j], crate::readers::points_of(g), at)
            &&& g.is_a("arc"@) && g.tag_point("start"@) is Some && g.tag_point("mid"@) is Some
                && g.tag_point("end"@) is Some ==> exists|j: int|
                0 <= j < all.len() && is_arc_through(
                    f,
                    #[trigger] all[j],
                    crate::arcs::normalized(
                        f,
                        g.tag_point("start"@)->0,
                        g.tag_point("mid"@)->0,
                        g.tag_point("end"@)->0,
                    ),
                    at,
                )
        }),
{
    lemma_words();
    let at = crate::attachment::placement_of(node, origin);
    let g = part.items()[k];
    let all = picture.symbol(f, node, libraries).shapes;
    let own = crate::symbol_drawing::graphic(f, g, at, GraphicPass::Foreground);
    let points = crate::symbol_drawing::all_placed(f, crate::readers::points_of(g), at);
    assert(points.len() == crate::readers::points_of(g).len());
    if own.len() > 0 {
        assert(own.contains(own[0]));
        let (j, _) = lemma_placed(
            picture,
            f,
            node,
            libraries,
            i,
            origin,
            line,
            part,
            k,
            GraphicPass::Foreground,
            own[0],
        );
        if g.is_a("bezier"@) && crate::readers::points_of(g).len() >= 4 {
            assert(is_curve(f, all[j], crate::readers::points_of(g), at));
        } else if g.is_a("arc"@) {
            assert(is_arc_through(
                f,
                all[j],
                crate::arcs::normalized(
                    f,
                    g.tag_point("start"@)->0,
                    g.tag_point("mid"@)->0,
                    g.tag_point("end"@)->0,
                ),
                at,
            ));
        }
    }
}

/// The shape is a curve along the points, placed on the sheet.
pub open spec fn is_curve<F: Fn(Query) -> Reply>(
    f: F,
    shape: Shape,
    along: Seq<Point>,
    at: Placement,
) -> bool {
    shape matches Shape::Bezier { points, .. } && points.len() == along.len() && forall|i: int|
        0 <= i < points.len() ==> #[trigger] points[i] == crate::plane::placed(f, along[i], at)
}

/// The shape is an arc through the three points, placed on the sheet.
pub open spec fn is_arc_through<F: Fn(Query) -> Reply>(
    f: F,
    shape: Shape,
    through: (Point, Point, Point),
    at: Placement,
) -> bool {
    shape matches Shape::Arc { start, mid, end, .. } && start == crate::plane::placed(
        f,
        through.0,
        at,
    ) && mid == crate::plane::placed(f, through.1, at) && end == crate::plane::placed(
        f,
        through.2,
        at,
    )
}

/// The shape is the words, set at the point.
pub open spec fn is_text_at(shape: Shape, p: Point, text: Seq<char>) -> bool {
    shape matches Shape::Text(words) && words.position == p && words.text == text
}

proof fn lemma_fields(fields: Seq<crate::sexp::Sexp>, n: nat, k: int, p: Point)
    requires
        0 <= k < n <= fields.len(),
        fields[k].at_point() == Some(p),
        !fields[k].hidden(),
    ensures
        ({
            let all = crate::label_drawing::sheet_fields(fields, n);
            let value = crate::text_box::shown(fields[k], 2);
            exists|j: int|
                0 <= j < all.len() && is_text_at(
                    #[trigger] all[j],
                    p,
                    if crate::text_box::shown(fields[k], 1) == "Sheetfile"@ {
                        "File: "@ + value
                    } else {
                        value
                    },
                )
        }),
    decreases n,
{
    let before = crate::label_drawing::sheet_fields(fields, (n - 1) as nat);
    let all = crate::label_drawing::sheet_fields(fields, n);
    let value = crate::text_box::shown(fields[k], 2);
    let text = if crate::text_box::shown(fields[k], 1) == "Sheetfile"@ {
        "File: "@ + value
    } else {
        value
    };
    if k < n - 1 {
        lemma_fields(fields, (n - 1) as nat, k, p);
        let j = choose|j: int| 0 <= j < before.len() && is_text_at(#[trigger] before[j], p, text);
        assert(all[j] == before[j]);
    } else {
        assert(all[before.len() as int] == crate::label_drawing::sheet_field(fields[k])[0]);
        assert(is_text_at(all[before.len() as int], p, text));
    }
}

/// Every field of a sheet that has a position and is not hidden is written there; the name of the
/// file is introduced as such.
pub proof fn sheet_fields_are_written<F: Fn(Query) -> Reply>(
    picture: Picture,
    f: F,
    node: crate::sexp::Sexp,
    k: int,
    p: Point,
)
    requires
        node.at_point() is Some,
        0 <= k < node.properties().len(),
        node.properties()[k].at_point() == Some(p),
        !node.properties()[k].hidden(),
    ensures
        ({
            let all = picture.sheet(f, node).shapes;
            let field = node.properties()[k];
            let value = crate::text_box::shown(field, 2);
            exists|j: int|
                0 <= j < all.len() && is_text_at(
                    #[trigger] all[j],
                    p,
                    if crate::text_box::shown(field, 1) == "Sheetfile"@ {
                        "File: "@ + value
                    } else {
                        value
                    },
                )
        }),
{
    let all = picture.sheet(f, node).shapes;
    let fields = node.properties();
    let pins = node.tagged("pin"@);
    lemma_fields(fields, fields.len(), k, p);
    let value = crate::text_box::shown(fields[k], 2);
    let text = if crate::text_box::shown(fields[k], 1) == "Sheetfile"@ {
        "File: "@ + value
    } else {
        value
    };
    let own = crate::label_drawing::sheet_fields(fields, fields.len());
    let j = choose|j: int| 0 <= j < own.len() && is_text_at(#[trigger] own[j], p, text);
    let first = picture.shapes + crate::label_drawing::sheet_outline(node);
    assert(all == first + own + crate::label_drawing::sheet_pins(f, pins, pins.len()));
    assert(all[first.len() + j] == own[j]);
    assert(is_text_at(all[first.len() + j], p, text));
}

/// A sheet is called by its last name that is not hidden.
pub proof fn sheets_are_called_by_their_name(fields: Seq<crate::sexp::Sexp>, n: nat, k: int)
    requires
        0 <= k < n <= fields.len(),
        !fields[k].hidden(),
        crate::text_box::shown(fields[k], 1) == "Sheetname"@,
        forall|j: int|
            k < j < n ==> (#[trigger] fields[j]).hidden() || crate::text_box::shown(fields[j], 1)
                != "Sheetname"@,
    ensures
        crate::label_drawing::sheet_label(fields, n) == crate::text_box::shown(fields[k], 2),
    decreases n,
{
    if k < n - 1 {
        assert(fields[n - 1].hidden() || crate::text_box::shown(fields[n - 1], 1)
            != "Sheetname"@);
        sheets_are_called_by_their_name(fields, (n - 1) as nat, k);
    }
}

/// A label is written with its own words; the frame of a hierarchical or global label begins where
/// the label connects.
pub proof fn labels_are_written<F: Fn(Query) -> Reply>(
    picture: Picture,
    f: F,
    node: crate::sexp::Sexp,
    framed: bool,
    p: Point,
)
    requires
        node.at_point() == Some(p),
        !node.hidden(),
    ensures
        ({
            let all = picture.label(f, node, framed).shapes;
            let n = picture.shapes.len() as int;
            &&& all.len() == n + (if framed {
                2int
            } else {
                1
            })
            &&& all.last() matches Shape::Text(words) && words.text == crate::text_box::shown(
                node,
                1,
            )
            &&& framed ==> (all[n] matches Shape::Polyline { points, closed, .. } && closed
                && points.len() == 6 && points[0] == crate::plane::rotated(
                f,
                Point {
                    x: crate::double::Double::spec_zero(),
                    y: crate::double::Double::spec_zero(),
                },
                p,
                crate::plane::readable(node.at_rotation()).spec_turned(),
            ))
        }),
{
}

} // verus!
