//! Where the parts of a placed symbol come to lie, and which parts it has.

use crate::attachment::Placement;
use crate::geometry::Point;
use crate::plane::Query;
use crate::plane::Reply;
use crate::readers::GraphicPass;
use crate::symbol_drawing::Part;
use vstd::prelude::*;

verus! {

/// The library symbol at `i` is the one that a name means: the last that has it.
pub open spec fn is_meant(libraries: Seq<crate::sexp::Sexp>, name: Seq<char>, i: int) -> bool {
    &&& 0 <= i < libraries.len()
    &&& libraries[i].part_text(1) == Some(name)
    &&& forall|j: int|
        i < j < libraries.len() ==> (#[trigger] libraries[j]).part_text(1) != Some(name)
}

proof fn lemma_library(libraries: Seq<crate::sexp::Sexp>, name: Seq<char>, n: nat)
    requires
        n <= libraries.len(),
        forall|j: int|
            n <= j < libraries.len() ==> (#[trigger] libraries[j]).part_text(1) != Some(name),
    ensures
        match crate::attachment::library_from(libraries, name, n) {
            Some(symbol) => exists|i: int| #[trigger]
                is_meant(libraries, name, i) && libraries[i] == symbol,
            None => forall|i: int| !#[trigger] is_meant(libraries, name, i),
        },
    decreases n,
{
    if n > 0 {
        if libraries[n - 1].part_text(1) == Some(name) {
            assert(is_meant(libraries, name, n - 1));
        } else {
            lemma_library(libraries, name, (n - 1) as nat);
        }
    }
}

/// The definition of a symbol is the last library symbol with its name. Without one it has none.
pub proof fn last_library_symbol_counts(libraries: Seq<crate::sexp::Sexp>, name: Seq<char>)
    ensures
        match crate::attachment::library_from(libraries, name, libraries.len()) {
            Some(symbol) => exists|i: int| #[trigger]
                is_meant(libraries, name, i) && libraries[i] == symbol,
            None => forall|i: int|
                0 <= i < libraries.len() ==> (#[trigger] libraries[i]).part_text(1) != Some(name),
        },
{
    lemma_library(libraries, name, libraries.len());
    if crate::attachment::library_from(libraries, name, libraries.len()) is None {
        lemma_unknown(libraries, name, libraries.len());
    }
}

proof fn lemma_unknown(libraries: Seq<crate::sexp::Sexp>, name: Seq<char>, n: nat)
    requires
        n <= libraries.len(),
        crate::attachment::library_from(libraries, name, n) is None,
    ensures
        forall|i: int| 0 <= i < n ==> (#[trigger] libraries[i]).part_text(1) != Some(name),
    decreases n,
{
    if n > 0 {
        lemma_unknown(libraries, name, (n - 1) as nat);
    }
}

/// The library symbol that a name means is found.
pub proof fn meant_symbol_is_found(libraries: Seq<crate::sexp::Sexp>, name: Seq<char>, i: int)
    requires
        is_meant(libraries, name, i),
    ensures
        crate::attachment::library_from(libraries, name, libraries.len()) == Some(libraries[i]),
{
    lemma_library(libraries, name, libraries.len());
    let j = choose|j: int| #[trigger]
        is_meant(libraries, name, j) && crate::attachment::library_from(
            libraries,
            name,
            libraries.len(),
        ) == Some(libraries[j]);
    if i < j {
        assert(libraries[j].part_text(1) != Some(name));
    } else if j < i {
        assert(libraries[i].part_text(1) != Some(name));
    }
}

/// The definition at `d + 1` is the one that the definition at `d` extends.
pub open spec fn is_extended(
    libraries: Seq<crate::sexp::Sexp>,
    line: Seq<crate::sexp::Sexp>,
    d: int,
) -> bool {
    line[d].first_text("extends"@) matches Some(name) && exists|i: int| #[trigger]
        is_meant(libraries, name, i) && libraries[i] == line[d + 1]
}

/// Definitions of which each extends the next.
pub open spec fn is_line(libraries: Seq<crate::sexp::Sexp>, line: Seq<crate::sexp::Sexp>) -> bool {
    &&& line.len() > 0
    &&& forall|d: int| 0 <= d < line.len() - 1 ==> #[trigger] is_extended(libraries, line, d)
}

/// The `j`-th part of a definition is one of its units, and belongs to the unit that is placed.
pub open spec fn is_unit(owner: crate::sexp::Sexp, j: int, unit: nat) -> bool {
    &&& 0 <= j < owner.items().len()
    &&& owner.items()[j].part_text(0) == Some("symbol"@)
    &&& crate::attachment::unit_matches(
        match owner.items()[j].part_text(1) {
            Some(name) => name,
            None => ""@,
        },
        unit,
    )
}

/// `part` is drawn where a unit of a definition is placed: it is the definition, or one of those
/// that it extends, at most as many as there are, or a unit of one of these.
pub open spec fn is_part(
    definition: crate::sexp::Sexp,
    libraries: Seq<crate::sexp::Sexp>,
    unit: nat,
    depth: nat,
    line: Seq<crate::sexp::Sexp>,
    part: crate::sexp::Sexp,
) -> bool {
    &&& is_line(libraries, line)
    &&& line[0] == definition
    &&& line.len() <= depth + 1
    &&& part == line.last() || exists|j: int| #[trigger]
        is_unit(line.last(), j, unit) && line.last().items()[j] == part
}

/// The definitions after the first of a line are a line.
pub proof fn lines_shrink(libraries: Seq<crate::sexp::Sexp>, line: Seq<crate::sexp::Sexp>)
    requires
        is_line(libraries, line),
        line.len() > 1,
    ensures
        is_line(libraries, line.skip(1)),
        line.skip(1).last() == line.last(),
        line.skip(1)[0] == line[1],
        exists|i: int| #[trigger]
            is_meant(libraries, line[0].first_text("extends"@)->0, i) && libraries[i] == line[1],
        line[0].first_text("extends"@) is Some,
{
    let rest = line.skip(1);
    assert(is_extended(libraries, line, 0));
    assert forall|d: int| 0 <= d < rest.len() - 1 implies #[trigger] is_extended(
        libraries,
        rest,
        d,
    ) by {
        assert(is_extended(libraries, line, d + 1));
        assert(rest[d] == line[d + 1] && rest[d + 1] == line[d + 2]);
    }
}

/// A definition and a line of those that it extends are a line.
pub proof fn lines_grow(
    libraries: Seq<crate::sexp::Sexp>,
    definition: crate::sexp::Sexp,
    rest: Seq<crate::sexp::Sexp>,
    i: int,
)
    requires
        is_line(libraries, rest),
        definition.first_text("extends"@) is Some,
        is_meant(libraries, definition.first_text("extends"@)->0, i),
        libraries[i] == rest[0],
    ensures
        is_line(libraries, seq![definition] + rest),
        (seq![definition] + rest).last() == rest.last(),
{
    let line = seq![definition] + rest;
    assert forall|d: int| 0 <= d < line.len() - 1 implies #[trigger] is_extended(
        libraries,
        line,
        d,
    ) by {
        if d > 0 {
            assert(is_extended(libraries, rest, d - 1));
            assert(rest[d - 1] == line[d] && rest[d] == line[d + 1]);
        } else {
            assert(line[1] == rest[0]);
        }
    }
}

proof fn lemma_units(owner: crate::sexp::Sexp, unit: nat, x: Part, n: nat)
    requires
        n <= owner.tagged("symbol"@).len(),
    ensures
        crate::symbol_drawing::drawn_units(
            owner.tagged("symbol"@),
            unit,
            crate::symbol_drawing::pin_options(owner),
            n,
        ).contains(x) <==> x.options == crate::symbol_drawing::pin_options(owner) && exists|k: int|
            0 <= k < n && #[trigger] owner.tagged("symbol"@)[k] == x.node
                && crate::attachment::unit_matches(crate::text_box::shown(x.node, 1), unit),
    decreases n,
{
    if n > 0 {
        lemma_units(owner, unit, x, (n - 1) as nat);
        let units = owner.tagged("symbol"@);
        let options = crate::symbol_drawing::pin_options(owner);
        let before = crate::symbol_drawing::drawn_units(units, unit, options, (n - 1) as nat);
        crate::sequences::pushed_holds(before, Part { node: units[n - 1], options }, x);
    }
}

proof fn lemma_unit(owner: crate::sexp::Sexp, unit: nat, x: Part)
    ensures
        crate::symbol_drawing::drawn_units(
            owner.tagged("symbol"@),
            unit,
            crate::symbol_drawing::pin_options(owner),
            owner.tagged("symbol"@).len(),
        ).contains(x) <==> x.options == crate::symbol_drawing::pin_options(owner) && exists|j: int|
            #[trigger]
            is_unit(owner, j, unit) && owner.items()[j] == x.node,
{
    let units = owner.tagged("symbol"@);
    lemma_units(owner, unit, x, units.len());
    if exists|j: int| #[trigger] is_unit(owner, j, unit) && owner.items()[j] == x.node {
        let j = choose|j: int| #[trigger] is_unit(owner, j, unit) && owner.items()[j] == x.node;
        crate::sexp::tagged_parts_are_found(owner, "symbol"@, j);
        let k = choose|k: int| 0 <= k < units.len() && units[k] == owner.items()[j];
        assert(units[k] == x.node);
    }
    if exists|k: int|
        0 <= k < units.len() && #[trigger] units[k] == x.node && crate::attachment::unit_matches(
            crate::text_box::shown(x.node, 1),
            unit,
        ) {
        let k = choose|k: int|
            0 <= k < units.len() && #[trigger] units[k] == x.node
                && crate::attachment::unit_matches(crate::text_box::shown(x.node, 1), unit);
        let j = crate::sexp::tagged_parts_are_parts(owner, "symbol"@, k);
        assert(is_unit(owner, j, unit));
    }
}

/// The parts that are drawn of a definition are those that it has, each with what its definition
/// says of the texts at its pins.
pub proof fn parts_are_drawn(
    definition: crate::sexp::Sexp,
    libraries: Seq<crate::sexp::Sexp>,
    unit: nat,
    depth: nat,
    x: Part,
)
    ensures
        crate::symbol_drawing::parts_of(definition, libraries, unit, depth).contains(x) <==> exists|
            line: Seq<crate::sexp::Sexp>,
        | #[trigger]
            is_part(definition, libraries, unit, depth, line, x.node) && x.options
                == crate::symbol_drawing::pin_options(line.last()),
    decreases depth,
{
    let all = crate::symbol_drawing::parts_of(definition, libraries, unit, depth);
    let options = crate::symbol_drawing::pin_options(definition);
    let units = definition.tagged("symbol"@);
    let own = crate::symbol_drawing::drawn_units(units, unit, options, units.len());
    let parent = match definition.first_text("extends"@) {
        Some(name) => crate::attachment::library_from(libraries, name, libraries.len()),
        None => None,
    };
    let inherited = if depth == 0 || parent is None {
        Seq::empty()
    } else {
        crate::symbol_drawing::parts_of(parent->0, libraries, unit, (depth - 1) as nat)
    };
    assert(all == inherited.push(Part { node: definition, options }) + own);
    crate::sequences::either_holds(inherited.push(Part { node: definition, options }), own, x);
    crate::sequences::pushed_holds(inherited, Part { node: definition, options }, x);
    lemma_unit(definition, unit, x);
    if depth > 0 && parent is Some {
        parts_are_drawn(parent->0, libraries, unit, (depth - 1) as nat, x);
    }
    if all.contains(x) {
        if inherited.contains(x) {
            let rest = choose|rest: Seq<crate::sexp::Sexp>| #[trigger]
                is_part(parent->0, libraries, unit, (depth - 1) as nat, rest, x.node) && x.options
                    == crate::symbol_drawing::pin_options(rest.last());
            let name = definition.first_text("extends"@)->0;
            lemma_library(libraries, name, libraries.len());
            let i = choose|i: int| #[trigger]
                is_meant(libraries, name, i) && libraries[i] == parent->0;
            lines_grow(libraries, definition, rest, i);
            assert(is_part(definition, libraries, unit, depth, seq![definition] + rest, x.node));
        } else {
            let line = seq![definition];
            assert(is_line(libraries, line));
            assert(line.last() == definition);
            assert(is_part(definition, libraries, unit, depth, line, x.node));
        }
    }
    if exists|line: Seq<crate::sexp::Sexp>| #[trigger]
        is_part(definition, libraries, unit, depth, line, x.node) && x.options
            == crate::symbol_drawing::pin_options(line.last()) {
        let line = choose|line: Seq<crate::sexp::Sexp>| #[trigger]
            is_part(definition, libraries, unit, depth, line, x.node) && x.options
                == crate::symbol_drawing::pin_options(line.last());
        if line.len() > 1 {
            lines_shrink(libraries, line);
            let name = definition.first_text("extends"@)->0;
            let i = choose|i: int| #[trigger]
                is_meant(libraries, name, i) && libraries[i] == line[1];
            meant_symbol_is_found(libraries, name, i);
            assert(is_part(
                parent->0,
                libraries,
                unit,
                (depth - 1) as nat,
                line.skip(1),
                x.node,
            ));
            assert(inherited.contains(x));
        } else {
            assert(line.last() == definition);
        }
    }
}

proof fn lemma_part_pins<F: Fn(Query) -> Reply>(
    f: F,
    part: Part,
    at: Placement,
    n: nat,
    k: int,
    shape: crate::primitives::Shape,
)
    requires
        0 <= k < n <= part.node.tagged("pin"@).len(),
        crate::symbol_drawing::pin_shapes(
            f,
            part.node.tagged("pin"@)[k],
            at,
            part.options,
        ).contains(shape),
    ensures
        crate::symbol_drawing::part_pins(
            f,
            part.node.tagged("pin"@),
            at,
            part.options,
            n,
        ).contains(shape),
    decreases n,
{
    let pins = part.node.tagged("pin"@);
    let before = crate::symbol_drawing::part_pins(f, pins, at, part.options, (n - 1) as nat);
    if k < n - 1 {
        lemma_part_pins(f, part, at, (n - 1) as nat, k, shape);
    }
    crate::sequences::either_holds(
        before,
        crate::symbol_drawing::pin_shapes(f, pins[n - 1], at, part.options),
        shape,
    );
}

proof fn lemma_overlays<F: Fn(Query) -> Reply>(
    f: F,
    parts: Seq<Part>,
    at: Placement,
    n: nat,
    k: int,
    shape: crate::primitives::Shape,
)
    requires
        0 <= k < n <= parts.len(),
        crate::symbol_drawing::pins_of_part(f, parts[k], at).contains(shape),
    ensures
        crate::symbol_drawing::parts_overlays(f, parts, at, n).contains(shape),
        crate::symbol_drawing::parts_pins(f, parts, at, n).contains(shape),
    decreases n,
{
    let part = parts[n - 1];
    let texts = part.node.tagged("text"@);
    let pins = crate::symbol_drawing::pins_of_part(f, part, at);
    if k < n - 1 {
        lemma_overlays(f, parts, at, (n - 1) as nat, k, shape);
    } else {
        crate::sequences::either_holds(
            crate::symbol_drawing::part_texts(f, texts, at, texts.len()),
            pins,
            shape,
        );
    }
    crate::sequences::either_holds(
        crate::symbol_drawing::parts_overlays(f, parts, at, (n - 1) as nat),
        crate::symbol_drawing::overlays(f, part, at),
        shape,
    );
    crate::sequences::either_holds(
        crate::symbol_drawing::parts_pins(f, parts, at, (n - 1) as nat),
        pins,
        shape,
    );
}

/// A line from one point to another.
pub open spec fn is_stroke(shape: crate::primitives::Shape, from: Point, to: Point) -> bool {
    shape matches crate::primitives::Shape::Line { from: a, to: b, .. } && a == from && b == to
}

/// A symbol is an instance of the library symbol at `i`, and stands at `origin`.
pub open spec fn is_instance(
    node: crate::sexp::Sexp,
    libraries: Seq<crate::sexp::Sexp>,
    i: int,
    origin: Point,
) -> bool {
    &&& node.first_text("lib_id"@) matches Some(name) && is_meant(libraries, name, i)
    &&& node.at_point() == Some(origin)
}

/// The `k`-th part of a part of a symbol is a pin whose tip is at `tip`.
pub open spec fn is_pin(part: crate::sexp::Sexp, k: int, tip: Point) -> bool {
    &&& 0 <= k < part.items().len()
    &&& part.items()[k].part_text(0) == Some("pin"@)
    &&& part.items()[k].at_point() == Some(tip)
}

/// The unit of a symbol that is placed is the one that it gives, and the first where it gives none
/// that is a number.
pub proof fn unit_is_the_one_given(node: crate::sexp::Sexp, n: nat)
    ensures
        node.first_text("unit"@) matches Some(text) ==> crate::attachment::unsigned(text) == Some(n)
            ==> crate::attachment::unit_of(node) == n,
        node.first_text("unit"@) is None ==> crate::attachment::unit_of(node) == 1,
{
}

/// The axis that a symbol names is the one about which it is mirrored, and no other.
pub proof fn symbols_are_mirrored_about_the_axis_they_name(
    node: crate::sexp::Sexp,
    origin: Point,
)
    ensures
        crate::attachment::placement_of(node, origin).origin == origin,
        crate::attachment::placement_of(node, origin).rotation == node.at_rotation(),
        node.first_text("mirror"@) == Some("x"@) ==> {
            &&& crate::attachment::placement_of(node, origin).mirror_x
            &&& !crate::attachment::placement_of(node, origin).mirror_y
        },
        node.first_text("mirror"@) == Some("y"@) ==> {
            &&& !crate::attachment::placement_of(node, origin).mirror_x
            &&& crate::attachment::placement_of(node, origin).mirror_y
        },
        node.first_text("mirror"@) == Some("xy"@) ==> {
            &&& crate::attachment::placement_of(node, origin).mirror_x
            &&& crate::attachment::placement_of(node, origin).mirror_y
        },
        node.first_text("mirror"@) is None ==> {
            &&& !crate::attachment::placement_of(node, origin).mirror_x
            &&& !crate::attachment::placement_of(node, origin).mirror_y
        },
{
    reveal_strlit("x");
    reveal_strlit("y");
    reveal_strlit("xy");
    assert("x"@[0] == 'x' && "y"@[0] == 'y');
    assert("x"@.len() == 1 && "y"@.len() == 1 && "xy"@.len() == 2);
}

/// Every pin of a placed symbol that is not hidden is drawn as a line from its tip to its body, both
/// placed as the symbol is. A second drawing of the symbol shows it again.
pub proof fn pins_are_drawn<F: Fn(Query) -> Reply>(
    picture: crate::scene_builder::Picture,
    f: F,
    node: crate::sexp::Sexp,
    libraries: Seq<crate::sexp::Sexp>,
    i: int,
    origin: Point,
    line: Seq<crate::sexp::Sexp>,
    part: crate::sexp::Sexp,
    k: int,
    tip: Point,
)
    requires
        is_instance(node, libraries, i, origin),
        is_part(
            libraries[i],
            libraries,
            crate::attachment::unit_of(node),
            libraries.len(),
            line,
            part,
        ),
        is_pin(part, k, tip),
        part.items()[k].first("hide"@) is None,
    ensures
        exists|shape: crate::primitives::Shape|
            #![trigger picture.symbol(f, node, libraries).shapes.contains(shape)]
            picture.symbol(f, node, libraries).shapes.contains(shape) && picture.symbol_again(
                f,
                node,
                libraries,
            ).shapes.contains(shape) && is_stroke(
                shape,
                crate::plane::placed(f, tip, crate::attachment::placement_of(node, origin)),
                crate::plane::placed(
                    f,
                    crate::symbol_drawing::pin_ends(f, part.items()[k], tip).1,
                    crate::attachment::placement_of(node, origin),
                ),
            ),
{
    let name = node.first_text("lib_id"@)->0;
    let unit = crate::attachment::unit_of(node);
    let at = crate::attachment::placement_of(node, origin);
    meant_symbol_is_found(libraries, name, i);
    let x = Part { node: part, options: crate::symbol_drawing::pin_options(line.last()) };
    parts_are_drawn(libraries[i], libraries, unit, libraries.len(), x);
    let parts = crate::symbol_drawing::parts_of(libraries[i], libraries, unit, libraries.len());
    let n = choose|n: int| 0 <= n < parts.len() && parts[n] == x;
    let pins = part.tagged("pin"@);
    crate::sexp::tagged_parts_are_found(part, "pin"@, k);
    let m = choose|m: int| 0 <= m < pins.len() && pins[m] == part.items()[k];
    let pin = pins[m];
    let own = crate::symbol_drawing::pin_shapes(f, pin, at, x.options);
    let shape = own[0];
    let ends = crate::symbol_drawing::pin_ends(f, pin, tip);
    assert(is_stroke(
        shape,
        crate::plane::placed(f, tip, at),
        crate::plane::placed(f, ends.1, at),
    ));
    assert(own.contains(shape));
    lemma_part_pins(f, x, at, pins.len(), m, shape);
    assert(crate::symbol_drawing::pins_of_part(f, parts[n], at).contains(shape));
    lemma_overlays(f, parts, at, parts.len(), n, shape);
    let back = crate::symbol_drawing::parts_graphics(
        f,
        parts,
        at,
        GraphicPass::Background,
        parts.len(),
    );
    let front = crate::symbol_drawing::parts_graphics(
        f,
        parts,
        at,
        GraphicPass::Foreground,
        parts.len(),
    );
    crate::sequences::either_holds(
        back + front,
        crate::symbol_drawing::parts_overlays(f, parts, at, parts.len()),
        shape,
    );
    let body = crate::symbol_drawing::definition_shapes(f, parts, at);
    assert(body.contains(shape));
    let fields = node.properties();
    let texts = crate::symbol_drawing::symbol_fields(f, fields, fields.len());
    crate::sequences::either_holds(picture.shapes, body, shape);
    crate::sequences::either_holds(picture.shapes + body, texts, shape);
    assert(picture.symbol(f, node, libraries).shapes == picture.shapes + body + texts);
    crate::sequences::either_holds(
        picture.shapes + texts,
        crate::symbol_drawing::parts_pins(f, parts, at, parts.len()),
        shape,
    );
}

/// The plane places the points of a symbol that is not turned where they belong: a library counts
/// upwards, a sheet downwards, and a mirror turns one axis round.
pub open spec fn places_upright<F: Fn(Query) -> Reply>(f: F) -> bool {
    forall|p: Point, at: Placement|
        at.rotation == crate::double::Double::spec_zero() ==> #[trigger] crate::plane::placed(
            f,
            p,
            at,
        ) == (Point {
            x: if at.mirror_y {
                at.origin.x.spec_difference(p.x)
            } else {
                at.origin.x.spec_sum(p.x)
            },
            y: if at.mirror_x {
                at.origin.y.spec_sum(p.y)
            } else {
                at.origin.y.spec_difference(p.y)
            },
        })
}

/// A pin at `(a, b)` of a symbol that stands at `(x, y)` and is not turned has its tip at
/// `(x + a, y - b)` on the sheet. Mirrored about the x axis the tip is at `(x + a, y + b)`, about
/// the y axis at `(x - a, y - b)`, and about both at `(x - a, y + b)`.
pub proof fn pin_tips_are_mirrored<F: Fn(Query) -> Reply>(
    picture: crate::scene_builder::Picture,
    f: F,
    node: crate::sexp::Sexp,
    libraries: Seq<crate::sexp::Sexp>,
    i: int,
    origin: Point,
    line: Seq<crate::sexp::Sexp>,
    part: crate::sexp::Sexp,
    k: int,
    tip: Point,
)
    requires
        places_upright(f),
        is_instance(node, libraries, i, origin),
        node.at_rotation() == crate::double::Double::spec_zero(),
        is_part(
            libraries[i],
            libraries,
            crate::attachment::unit_of(node),
            libraries.len(),
            line,
            part,
        ),
        is_pin(part, k, tip),
        part.items()[k].first("hide"@) is None,
    ensures
        ({
            let right = origin.x.spec_sum(tip.x);
            let left = origin.x.spec_difference(tip.x);
            let up = origin.y.spec_difference(tip.y);
            let down = origin.y.spec_sum(tip.y);
            let mirror = node.first_text("mirror"@);
            let drawn = picture.symbol(f, node, libraries).shapes;
            &&& mirror is None ==> begins_stroke(drawn, Point { x: right, y: up })
            &&& mirror == Some("x"@) ==> begins_stroke(drawn, Point { x: right, y: down })
            &&& mirror == Some("y"@) ==> begins_stroke(drawn, Point { x: left, y: up })
            &&& mirror == Some("xy"@) ==> begins_stroke(drawn, Point { x: left, y: down })
        }),
{
    pins_are_drawn(picture, f, node, libraries, i, origin, line, part, k, tip);
    symbols_are_mirrored_about_the_axis_they_name(node, origin);
    let at = crate::attachment::placement_of(node, origin);
    let end = crate::plane::placed(
        f,
        crate::symbol_drawing::pin_ends(f, part.items()[k], tip).1,
        at,
    );
    let shape = choose|shape: crate::primitives::Shape|
        #![trigger picture.symbol(f, node, libraries).shapes.contains(shape)]
        picture.symbol(f, node, libraries).shapes.contains(shape) && picture.symbol_again(
            f,
            node,
            libraries,
        ).shapes.contains(shape) && is_stroke(shape, crate::plane::placed(f, tip, at), end);
    let drawn = picture.symbol(f, node, libraries).shapes;
    let n = choose|n: int| 0 <= n < drawn.len() && drawn[n] == shape;
    assert(is_stroke(drawn[n], crate::plane::placed(f, tip, at), end));
    assert(begins_stroke(drawn, crate::plane::placed(f, tip, at)));
}

/// A line that is drawn begins at a point.
pub open spec fn begins_stroke(drawn: Seq<crate::primitives::Shape>, p: Point) -> bool {
    exists|n: int, end: Point| 0 <= n < drawn.len() && #[trigger] is_stroke(drawn[n], p, end)
}

/// A pin from which a length leads along an angle: its body ends that far from the tip.
pub proof fn pins_reach_their_length<F: Fn(Query) -> Reply>(
    f: F,
    pin: crate::sexp::Sexp,
    tip: Point,
    length: crate::double::Double,
)
    requires
        pin.first_number("length"@) == Some(length),
    ensures
        crate::symbol_drawing::pin_ends(f, pin, tip).0 == tip,
        crate::symbol_drawing::pin_ends(f, pin, tip).1.x == tip.x.spec_sum(
            length.spec_product(crate::plane::direction(f, pin.at_rotation()).x),
        ),
        crate::symbol_drawing::pin_ends(f, pin, tip).1.y == tip.y.spec_sum(
            length.spec_product(crate::plane::direction(f, pin.at_rotation()).y),
        ),
{
}

/// A text of a role that says the words.
pub open spec fn is_written(
    shape: crate::primitives::Shape,
    role: crate::scene::ColorRole,
    text: Seq<char>,
) -> bool {
    shape matches crate::primitives::Shape::Text(words) && words.role == role && words.text == text
}

/// A text of a role.
pub open spec fn is_text_of(shape: crate::primitives::Shape, role: crate::scene::ColorRole) -> bool {
    shape matches crate::primitives::Shape::Text(words) && words.role == role
}

/// What a symbol says that it hides at its pins.
pub open spec fn hides(definition: crate::sexp::Sexp, what: Seq<char>) -> bool {
    definition.first(what) matches Some(part) && part.first("hide"@) is Some
}

proof fn lemma_body<F: Fn(Query) -> Reply>(
    picture: crate::scene_builder::Picture,
    f: F,
    node: crate::sexp::Sexp,
    libraries: Seq<crate::sexp::Sexp>,
    i: int,
    origin: Point,
    line: Seq<crate::sexp::Sexp>,
    part: crate::sexp::Sexp,
    shape: crate::primitives::Shape,
)
    requires
        is_instance(node, libraries, i, origin),
        is_part(
            libraries[i],
            libraries,
            crate::attachment::unit_of(node),
            libraries.len(),
            line,
            part,
        ),
        crate::symbol_drawing::overlays(
            f,
            Part { node: part, options: crate::symbol_drawing::pin_options(line.last()) },
            crate::attachment::placement_of(node, origin),
        ).contains(shape),
    ensures
        picture.symbol(f, node, libraries).shapes.contains(shape),
{
    let name = node.first_text("lib_id"@)->0;
    let unit = crate::attachment::unit_of(node);
    let at = crate::attachment::placement_of(node, origin);
    meant_symbol_is_found(libraries, name, i);
    let x = Part { node: part, options: crate::symbol_drawing::pin_options(line.last()) };
    parts_are_drawn(libraries[i], libraries, unit, libraries.len(), x);
    let parts = crate::symbol_drawing::parts_of(libraries[i], libraries, unit, libraries.len());
    let n = choose|n: int| 0 <= n < parts.len() && parts[n] == x;
    lemma_all_overlays(f, parts, at, parts.len(), n, shape);
    let back = crate::symbol_drawing::parts_graphics(
        f,
        parts,
        at,
        GraphicPass::Background,
        parts.len(),
    );
    let front = crate::symbol_drawing::parts_graphics(
        f,
        parts,
        at,
        GraphicPass::Foreground,
        parts.len(),
    );
    crate::sequences::either_holds(
        back + front,
        crate::symbol_drawing::parts_overlays(f, parts, at, parts.len()),
        shape,
    );
    let body = crate::symbol_drawing::definition_shapes(f, parts, at);
    let fields = node.properties();
    let texts = crate::symbol_drawing::symbol_fields(f, fields, fields.len());
    crate::sequences::either_holds(picture.shapes, body, shape);
    crate::sequences::either_holds(picture.shapes + body, texts, shape);
    assert(picture.symbol(f, node, libraries).shapes == picture.shapes + body + texts);
}

proof fn lemma_all_overlays<F: Fn(Query) -> Reply>(
    f: F,
    parts: Seq<Part>,
    at: Placement,
    n: nat,
    k: int,
    shape: crate::primitives::Shape,
)
    requires
        0 <= k < n <= parts.len(),
        crate::symbol_drawing::overlays(f, parts[k], at).contains(shape),
    ensures
        crate::symbol_drawing::parts_overlays(f, parts, at, n).contains(shape),
    decreases n,
{
    if k < n - 1 {
        lemma_all_overlays(f, parts, at, (n - 1) as nat, k, shape);
    }
    crate::sequences::either_holds(
        crate::symbol_drawing::parts_overlays(f, parts, at, (n - 1) as nat),
        crate::symbol_drawing::overlays(f, parts[n - 1], at),
        shape,
    );
}

/// The name and the number of a visible pin are written at it, unless the symbol hides them; a name
/// that is a tilde stands for none.
pub proof fn pin_texts_are_written<F: Fn(Query) -> Reply>(
    picture: crate::scene_builder::Picture,
    f: F,
    node: crate::sexp::Sexp,
    libraries: Seq<crate::sexp::Sexp>,
    i: int,
    origin: Point,
    line: Seq<crate::sexp::Sexp>,
    part: crate::sexp::Sexp,
    k: int,
    tip: Point,
)
    requires
        is_instance(node, libraries, i, origin),
        is_part(
            libraries[i],
            libraries,
            crate::attachment::unit_of(node),
            libraries.len(),
            line,
            part,
        ),
        is_pin(part, k, tip),
        part.items()[k].first("hide"@) is None,
    ensures
        ({
            let all = picture.symbol(f, node, libraries).shapes;
            let pin = part.items()[k];
            &&& pin.first_text("name"@) matches Some(name) ==> (name.len() > 0 && name != "~"@
                && !hides(line.last(), "pin_names"@) ==> exists|m: int|
                0 <= m < all.len() && is_written(
                    #[trigger] all[m],
                    crate::scene::ColorRole::PinName,
                    name,
                ))
            &&& pin.first_text("number"@) matches Some(number) ==> (number.len() > 0 && !hides(
                line.last(),
                "pin_numbers"@,
            ) ==> exists|m: int|
                0 <= m < all.len() && is_written(
                    #[trigger] all[m],
                    crate::scene::ColorRole::PinNumber,
                    number,
                ))
        }),
        ({
            let own = crate::symbol_drawing::pin_shapes(
                f,
                part.items()[k],
                crate::attachment::placement_of(node, origin),
                crate::symbol_drawing::pin_options(line.last()),
            );
            &&& hides(line.last(), "pin_names"@) ==> forall|m: int|
                0 <= m < own.len() ==> !is_text_of(
                    #[trigger] own[m],
                    crate::scene::ColorRole::PinName,
                )
            &&& hides(line.last(), "pin_numbers"@) && hides(line.last(), "pin_names"@) ==> own.len()
                == 1
        }),
{
    let all = picture.symbol(f, node, libraries).shapes;
    let at = crate::attachment::placement_of(node, origin);
    let options = crate::symbol_drawing::pin_options(line.last());
    let x = Part { node: part, options };
    let pins = part.tagged("pin"@);
    crate::sexp::tagged_parts_are_found(part, "pin"@, k);
    let m = choose|m: int| 0 <= m < pins.len() && pins[m] == part.items()[k];
    let pin = pins[m];
    let own = crate::symbol_drawing::pin_shapes(f, pin, at, options);
    let named = crate::symbol_drawing::pin_name(f, pin, tip, at, options);
    let numbered = crate::symbol_drawing::pin_number(f, pin, tip, at, options);
    let texts = part.tagged("text"@);
    if let Some(name) = pin.first_text("name"@) {
        if name.len() > 0 && name != "~"@ && !hides(line.last(), "pin_names"@) {
            assert(own[1] == named[0]);
            assert(own.contains(named[0]));
            lemma_part_pins(f, x, at, pins.len(), m, named[0]);
            crate::sequences::either_holds(
                crate::symbol_drawing::part_texts(f, texts, at, texts.len()),
                crate::symbol_drawing::pins_of_part(f, x, at),
                named[0],
            );
            lemma_body(picture, f, node, libraries, i, origin, line, part, named[0]);
            let j = choose|j: int| 0 <= j < all.len() && all[j] == named[0];
            assert(is_written(all[j], crate::scene::ColorRole::PinName, name));
        }
    }
    if let Some(number) = pin.first_text("number"@) {
        if number.len() > 0 && !hides(line.last(), "pin_numbers"@) {
            assert(own[named.len() as int + 1] == numbered[0]);
            assert(own.contains(numbered[0]));
            lemma_part_pins(f, x, at, pins.len(), m, numbered[0]);
            crate::sequences::either_holds(
                crate::symbol_drawing::part_texts(f, texts, at, texts.len()),
                crate::symbol_drawing::pins_of_part(f, x, at),
                numbered[0],
            );
            lemma_body(picture, f, node, libraries, i, origin, line, part, numbered[0]);
            let j = choose|j: int| 0 <= j < all.len() && all[j] == numbered[0];
            assert(is_written(all[j], crate::scene::ColorRole::PinNumber, number));
        }
    }
}

proof fn lemma_texts<F: Fn(Query) -> Reply>(
    f: F,
    texts: Seq<crate::sexp::Sexp>,
    at: Placement,
    n: nat,
    m: int,
    shape: crate::primitives::Shape,
)
    requires
        0 <= m < n <= texts.len(),
        crate::symbol_drawing::part_text(f, texts[m], at).contains(shape),
    ensures
        crate::symbol_drawing::part_texts(f, texts, at, n).contains(shape),
    decreases n,
{
    if m < n - 1 {
        lemma_texts(f, texts, at, (n - 1) as nat, m, shape);
    }
    crate::sequences::either_holds(
        crate::symbol_drawing::part_texts(f, texts, at, (n - 1) as nat),
        crate::symbol_drawing::part_text(f, texts[n - 1], at),
        shape,
    );
}

/// Every text of a placed symbol that is not hidden is written where its place comes to lie; a hidden
/// one draws nothing.
pub proof fn symbol_texts_are_written<F: Fn(Query) -> Reply>(
    picture: crate::scene_builder::Picture,
    f: F,
    node: crate::sexp::Sexp,
    libraries: Seq<crate::sexp::Sexp>,
    i: int,
    origin: Point,
    line: Seq<crate::sexp::Sexp>,
    part: crate::sexp::Sexp,
    k: int,
    p: Point,
)
    requires
        is_instance(node, libraries, i, origin),
        is_part(
            libraries[i],
            libraries,
            crate::attachment::unit_of(node),
            libraries.len(),
            line,
            part,
        ),
        0 <= k < part.items().len(),
        part.items()[k].part_text(0) == Some("text"@),
        part.items()[k].at_point() == Some(p),
    ensures
        ({
            let all = picture.symbol(f, node, libraries).shapes;
            let at = crate::attachment::placement_of(node, origin);
            let text = part.items()[k];
            &&& !text.hidden() ==> exists|m: int|
                0 <= m < all.len() && is_text_placed(
                    #[trigger] all[m],
                    crate::plane::placed(f, p, at),
                    crate::text_box::shown(text, 1),
                )
            &&& text.hidden() ==> crate::symbol_drawing::part_text(f, text, at).len() == 0
        }),
{
    let all = picture.symbol(f, node, libraries).shapes;
    let at = crate::attachment::placement_of(node, origin);
    let x = Part { node: part, options: crate::symbol_drawing::pin_options(line.last()) };
    let texts = part.tagged("text"@);
    crate::sexp::tagged_parts_are_found(part, "text"@, k);
    let m = choose|m: int| 0 <= m < texts.len() && texts[m] == part.items()[k];
    if !texts[m].hidden() {
        let own = crate::symbol_drawing::part_text(f, texts[m], at);
        assert(own.contains(own[0]));
        lemma_texts(f, texts, at, texts.len(), m, own[0]);
        crate::sequences::either_holds(
            crate::symbol_drawing::part_texts(f, texts, at, texts.len()),
            crate::symbol_drawing::pins_of_part(f, x, at),
            own[0],
        );
        lemma_body(picture, f, node, libraries, i, origin, line, part, own[0]);
        let j = choose|j: int| 0 <= j < all.len() && all[j] == own[0];
        assert(is_text_placed(
            all[j],
            crate::plane::placed(f, p, at),
            crate::text_box::shown(texts[m], 1),
        ));
    }
}

/// A text at a point that says the words.
pub open spec fn is_text_placed(
    shape: crate::primitives::Shape,
    p: Point,
    text: Seq<char>,
) -> bool {
    shape matches crate::primitives::Shape::Text(words) && words.position == p && words.text == text
}

} // verus!
