//! What a document shows: every item of it is drawn and can be selected, whatever else it holds.

use crate::document_drawing::Item;
use crate::document_drawing::Ranks;
use crate::geometry::Point;
use crate::plane::Query;
use crate::plane::Reply;
use crate::primitives::Shape;
use crate::scene::ColorRole;
use crate::scene::ObjectKind;
use crate::scene_builder::Picture;
use vstd::prelude::*;

verus! {

/// `after` shows all that `before` shows, and what can be selected stays what it is.
#[verifier::opaque]
pub open spec fn keeps(before: Picture, after: Picture) -> bool {
    &&& before.shapes.len() <= after.shapes.len()
    &&& forall|i: int|
        0 <= i < before.shapes.len() ==> #[trigger] after.shapes[i] == before.shapes[i]
    &&& before.things.len() <= after.things.len()
    &&& forall|i: int|
        0 <= i < before.things.len() ==> {
            &&& (#[trigger] after.things[i]).uuid == before.things[i].uuid
            &&& after.things[i].kind == before.things[i].kind
            &&& after.things[i].label == before.things[i].label
            &&& after.things[i].search_text == before.things[i].search_text
            &&& after.things[i].bounds == before.things[i].bounds
        }
}

proof fn lemma_keeps(a: Picture, b: Picture, c: Picture)
    requires
        keeps(a, b),
        keeps(b, c),
    ensures
        keeps(a, c),
{
    reveal(keeps);
    assert forall|i: int| 0 <= i < a.shapes.len() implies #[trigger] c.shapes[i] == a.shapes[i] by {
        assert(b.shapes[i] == a.shapes[i]);
    }
    assert forall|i: int| 0 <= i < a.things.len() implies {
        &&& (#[trigger] c.things[i]).uuid == a.things[i].uuid
        &&& c.things[i].kind == a.things[i].kind
        &&& c.things[i].label == a.things[i].label
        &&& c.things[i].search_text == a.things[i].search_text
        &&& c.things[i].bounds == a.things[i].bounds
    } by {
        assert(b.things[i].uuid == a.things[i].uuid);
    }
}

proof fn lemma_same(p: Picture)
    ensures
        keeps(p, p),
{
    reveal(keeps);
}

proof fn lemma_with(p: Picture, more: Seq<Shape>)
    ensures
        keeps(p, p.with(more)),
{
    reveal(keeps);
}

proof fn lemma_object<F: Fn(Query) -> Reply>(
    p: Picture,
    f: F,
    node: crate::sexp::Sexp,
    kind: ObjectKind,
    label: Seq<char>,
    start: nat,
)
    ensures
        keeps(p, p.with_object(f, node, kind, label, start)),
        p.with_object(f, node, kind, label, start).shapes == p.shapes,
{
    reveal(keeps);
}

proof fn lemma_entering(p: Picture, b: Option<crate::geometry::Bounds>)
    ensures
        keeps(p, p.entering(b)),
{
    reveal(keeps);
}

proof fn lemma_made<F: Fn(Query) -> Reply>(
    p: Picture,
    more: Seq<Shape>,
    f: F,
    node: crate::sexp::Sexp,
    kind: ObjectKind,
    label: Seq<char>,
    start: nat,
)
    ensures
        keeps(p, p.with(more).with_object(f, node, kind, label, start)),
{
    lemma_with(p, more);
    lemma_object(p.with(more), f, node, kind, label, start);
    lemma_keeps(p, p.with(more), p.with(more).with_object(f, node, kind, label, start));
}

proof fn lemma_drawn(p: Picture, a: Shape, b: Shape)
    ensures
        p.drawn(a) == p.with(seq![a]),
        p.drawn(a).drawn(b) == p.with(seq![a, b]),
{
    assert(p.drawn(a) =~= p.with(seq![a]));
    assert(p.drawn(a).drawn(b) =~= p.with(seq![a, b]));
}

proof fn lemma_symbol<F: Fn(Query) -> Reply>(
    p: Picture,
    f: F,
    node: crate::sexp::Sexp,
    libraries: Seq<crate::sexp::Sexp>,
)
    ensures
        keeps(p, p.symbol(f, node, libraries)),
{
    lemma_same(p);
    let fields = node.properties();
    let texts = crate::symbol_drawing::symbol_fields(f, fields, fields.len());
    if let (Some(library), Some(origin)) = (node.first_text("lib_id"@), node.at_point()) {
        let at = crate::attachment::placement_of(node, origin);
        let body = match crate::attachment::library_from(libraries, library, libraries.len()) {
            Some(definition) => crate::symbol_drawing::definition_shapes(
                f,
                crate::symbol_drawing::parts_of(
                    definition,
                    libraries,
                    crate::attachment::unit_of(node),
                    libraries.len(),
                ),
                at,
            ),
            None => seq![crate::symbol_drawing::missing_symbol(origin)],
        };
        let label = crate::symbol_drawing::symbol_label(fields, library, fields.len());
        lemma_with(p, body);
        lemma_made(p.with(body), texts, f, node, ObjectKind::Symbol, label, p.shapes.len());
        let object = p.with(body).with(texts).with_object(
            f,
            node,
            ObjectKind::Symbol,
            label,
            p.shapes.len(),
        );
        lemma_keeps(p, p.with(body), object);
        let b = crate::text_box::first_symbol_box(f, node);
        lemma_entering(object, b);
        lemma_keeps(p, object, object.entering(b));
    }
}

proof fn lemma_symbol_again<F: Fn(Query) -> Reply>(
    p: Picture,
    f: F,
    node: crate::sexp::Sexp,
    libraries: Seq<crate::sexp::Sexp>,
)
    ensures
        keeps(p, p.symbol_again(f, node, libraries)),
{
    let fields = node.properties();
    let texts = crate::symbol_drawing::symbol_fields(f, fields, fields.len());
    let named = p.with(texts);
    lemma_with(p, texts);
    if let (Some(library), Some(origin)) = (node.first_text("lib_id"@), node.at_point()) {
        if let Some(definition) = crate::attachment::library_from(
            libraries,
            library,
            libraries.len(),
        ) {
            let parts = crate::symbol_drawing::parts_of(
                definition,
                libraries,
                crate::attachment::unit_of(node),
                libraries.len(),
            );
            let pins = crate::symbol_drawing::parts_pins(
                f,
                parts,
                crate::attachment::placement_of(node, origin),
                parts.len(),
            );
            lemma_with(named, pins);
            lemma_keeps(p, named, named.with(pins));
        }
    }
}

proof fn lemma_sheet<F: Fn(Query) -> Reply>(p: Picture, f: F, node: crate::sexp::Sexp)
    ensures
        keeps(p, p.sheet(f, node)),
{
    let fields = node.properties();
    let pins = node.tagged("pin"@);
    let outline = crate::label_drawing::sheet_outline(node);
    let texts = crate::label_drawing::sheet_fields(fields, fields.len());
    let stubs = crate::label_drawing::sheet_pins(f, pins, pins.len());
    let outlined = p.with(outline);
    let filled = outlined.with(texts);
    lemma_with(p, outline);
    lemma_with(outlined, texts);
    lemma_keeps(p, outlined, filled);
    lemma_made(
        filled,
        stubs,
        f,
        node,
        ObjectKind::Sheet,
        crate::label_drawing::sheet_label(fields, fields.len()),
        p.shapes.len(),
    );
    lemma_keeps(
        p,
        filled,
        filled.with(stubs).with_object(
            f,
            node,
            ObjectKind::Sheet,
            crate::label_drawing::sheet_label(fields, fields.len()),
            p.shapes.len(),
        ),
    );
}

proof fn lemma_label<F: Fn(Query) -> Reply>(
    p: Picture,
    f: F,
    node: crate::sexp::Sexp,
    framed: bool,
)
    ensures
        keeps(p, p.label(f, node, framed)),
{
    lemma_same(p);
    if let Some(position) = node.at_point() {
        let text = crate::text_box::shown(node, 1);
        let words = crate::label_drawing::label_words(f, node, framed, position);
        let frame = Shape::Polyline {
            points: crate::label_drawing::frame_points(
                f,
                text,
                crate::readers::size_of(node, crate::text_box::usual_size()),
                position,
                crate::plane::readable(node.at_rotation()).spec_turned(),
            ),
            closed: true,
            style: crate::scene_builder::style_of(
                crate::scene_builder::usual_width(),
                ColorRole::Symbol,
            ),
            fill: false,
        };
        lemma_drawn(p, words, words);
        lemma_drawn(p, frame, words);
        let more = if framed {
            seq![frame, words]
        } else {
            seq![words]
        };
        lemma_made(p, more, f, node, ObjectKind::Label, text, p.shapes.len());
    }
}

proof fn lemma_wire<F: Fn(Query) -> Reply>(
    p: Picture,
    f: F,
    node: crate::sexp::Sexp,
    role: ColorRole,
    kind: ObjectKind,
)
    ensures
        keeps(p, p.wire(f, node, role, kind)),
{
    lemma_same(p);
    let points = crate::readers::points_of(node);
    if points.len() >= 2 {
        lemma_made(
            p,
            crate::scene_builder::lines_between(
                points,
                crate::scene_builder::style_of(
                    crate::scene_builder::stroke_of(node, crate::scene_builder::usual_width()),
                    role,
                ),
                (points.len() - 1) as nat,
            ),
            f,
            node,
            kind,
            crate::scene::name_of_role(role),
            p.shapes.len(),
        );
    }
}

proof fn lemma_small<F: Fn(Query) -> Reply>(p: Picture, f: F, node: crate::sexp::Sexp)
    ensures
        keeps(p, p.bus_entry(f, node)),
        keeps(p, p.junction(f, node)),
        keeps(p, p.no_connect(f, node)),
        keeps(p, p.sheet_text(f, node)),
{
    lemma_same(p);
    let entry = p.bus_entry(f, node);
    let dot = p.junction(f, node);
    let cross = p.no_connect(f, node);
    let text = p.sheet_text(f, node);
    reveal(keeps);
}

proof fn lemma_item<F: Fn(Query) -> Reply>(
    p: Picture,
    f: F,
    item: Item,
    node: crate::sexp::Sexp,
    libraries: Seq<crate::sexp::Sexp>,
)
    ensures
        keeps(p, p.item(f, item, node, libraries)),
{
    match item {
        Item::Symbol => lemma_symbol(p, f, node, libraries),
        Item::Sheet => lemma_sheet(p, f, node),
        Item::FramedLabel => lemma_label(p, f, node, true),
        Item::Label => lemma_label(p, f, node, false),
        Item::Bus => lemma_wire(p, f, node, ColorRole::Bus, ObjectKind::Bus),
        Item::Wire => lemma_wire(p, f, node, ColorRole::Wire, ObjectKind::Wire),
        _ => lemma_small(p, f, node),
    }
}

/// `end` shows all that `q` shows once an item is drawn on it.
pub open spec fn is_drawn_on<F: Fn(Query) -> Reply>(
    q: Picture,
    f: F,
    item: Item,
    node: crate::sexp::Sexp,
    libraries: Seq<crate::sexp::Sexp>,
    end: Picture,
) -> bool {
    keeps(q.item(f, item, node, libraries), end)
}

/// An item is drawn in a picture.
pub open spec fn is_drawn<F: Fn(Query) -> Reply>(
    f: F,
    item: Item,
    node: crate::sexp::Sexp,
    libraries: Seq<crate::sexp::Sexp>,
    end: Picture,
) -> bool {
    exists|q: Picture| #[trigger] is_drawn_on(q, f, item, node, libraries, end)
}

proof fn lemma_still_drawn<F: Fn(Query) -> Reply>(
    f: F,
    item: Item,
    node: crate::sexp::Sexp,
    libraries: Seq<crate::sexp::Sexp>,
    a: Picture,
    b: Picture,
)
    requires
        is_drawn(f, item, node, libraries, a),
        keeps(a, b),
    ensures
        is_drawn(f, item, node, libraries, b),
{
    let q = choose|q: Picture| #[trigger] is_drawn_on(q, f, item, node, libraries, a);
    lemma_keeps(q.item(f, item, node, libraries), a, b);
    assert(is_drawn_on(q, f, item, node, libraries, b));
}

proof fn lemma_items<F: Fn(Query) -> Reply>(
    p: Picture,
    f: F,
    item: Item,
    nodes: Seq<crate::sexp::Sexp>,
    libraries: Seq<crate::sexp::Sexp>,
    n: nat,
)
    requires
        n <= nodes.len(),
    ensures
        keeps(p, p.items_upto(f, item, nodes, libraries, n)),
        forall|k: int|
            0 <= k < n ==> is_drawn(
                f,
                item,
                #[trigger] nodes[k],
                libraries,
                p.items_upto(f, item, nodes, libraries, n),
            ),
    decreases n,
{
    lemma_same(p);
    if n > 0 {
        let before = p.items_upto(f, item, nodes, libraries, (n - 1) as nat);
        let after = p.items_upto(f, item, nodes, libraries, n);
        lemma_items(p, f, item, nodes, libraries, (n - 1) as nat);
        lemma_item(before, f, item, nodes[n - 1], libraries);
        lemma_keeps(p, before, after);
        assert forall|k: int| 0 <= k < n implies is_drawn(
            f,
            item,
            #[trigger] nodes[k],
            libraries,
            after,
        ) by {
            if k < n - 1 {
                lemma_still_drawn(f, item, nodes[k], libraries, before, after);
            } else {
                lemma_same(after);
                assert(is_drawn_on(before, f, item, nodes[k], libraries, after));
            }
        }
    }
}

proof fn lemma_all<F: Fn(Query) -> Reply>(
    p: Picture,
    f: F,
    item: Item,
    root: crate::sexp::Sexp,
    tag: Seq<char>,
)
    ensures
        keeps(p, p.all(f, item, root, tag)),
        forall|i: int|
            0 <= i < root.items().len() && (#[trigger] root.items()[i]).part_text(0) == Some(tag)
                ==> is_drawn(
                f,
                item,
                root.items()[i],
                crate::attachment::libraries_of(root),
                p.all(f, item, root, tag),
            ),
{
    let nodes = root.tagged(tag);
    lemma_items(p, f, item, nodes, crate::attachment::libraries_of(root), nodes.len());
    assert forall|i: int|
        0 <= i < root.items().len() && (#[trigger] root.items()[i]).part_text(0) == Some(
            tag,
        ) implies is_drawn(
        f,
        item,
        root.items()[i],
        crate::attachment::libraries_of(root),
        p.all(f, item, root, tag),
    ) by {
        crate::sexp::tagged_parts_are_found(root, tag, i);
        let k = choose|k: int| 0 <= k < nodes.len() && nodes[k] == root.items()[i];
        assert(nodes[k] == root.items()[i]);
    }
}

/// The class in which items that begin with a word are drawn, in the order of the classes that are
/// drawn after the symbols.
pub open spec fn is_class(tag: Seq<char>, item: Item) -> bool {
    ||| tag == "hierarchical_label"@ && item == Item::FramedLabel
    ||| tag == "global_label"@ && item == Item::FramedLabel
    ||| tag == "label"@ && item == Item::Label
    ||| tag == "bus"@ && item == Item::Bus
    ||| tag == "wire"@ && item == Item::Wire
    ||| tag == "bus_entry"@ && item == Item::BusEntry
    ||| tag == "no_connect"@ && item == Item::NoConnect
    ||| tag == "text"@ && item == Item::Text
}

#[verifier::spinoff_prover]
proof fn lemma_annotations<F: Fn(Query) -> Reply>(
    p: Picture,
    f: F,
    root: crate::sexp::Sexp,
    i: int,
    tag: Seq<char>,
    item: Item,
)
    requires
        0 <= i < root.items().len(),
        root.items()[i].part_text(0) == Some(tag),
        is_class(tag, item),
    ensures
        is_drawn(
            f,
            item,
            root.items()[i],
            crate::attachment::libraries_of(root),
            p.annotations(f, root),
        ),
{
    let libraries = crate::attachment::libraries_of(root);
    let node = root.items()[i];
    let a = p.all(f, Item::FramedLabel, root, "hierarchical_label"@);
    let b = a.all(f, Item::FramedLabel, root, "global_label"@);
    let c = b.all(f, Item::Label, root, "label"@);
    let d = c.all(f, Item::Bus, root, "bus"@);
    let e = d.all(f, Item::Wire, root, "wire"@);
    let g = e.all(f, Item::BusEntry, root, "bus_entry"@);
    let h = g.all(f, Item::NoConnect, root, "no_connect"@);
    let k = h.all(f, Item::Text, root, "text"@);
    assert(k == p.annotations(f, root));
    lemma_all(p, f, Item::FramedLabel, root, "hierarchical_label"@);
    lemma_all(a, f, Item::FramedLabel, root, "global_label"@);
    lemma_all(b, f, Item::Label, root, "label"@);
    lemma_all(c, f, Item::Bus, root, "bus"@);
    lemma_all(d, f, Item::Wire, root, "wire"@);
    lemma_all(e, f, Item::BusEntry, root, "bus_entry"@);
    lemma_all(g, f, Item::NoConnect, root, "no_connect"@);
    lemma_all(h, f, Item::Text, root, "text"@);
    lemma_same(k);
    lemma_keeps(g, h, k);
    lemma_keeps(e, g, k);
    lemma_keeps(d, e, k);
    lemma_keeps(c, d, k);
    lemma_keeps(b, c, k);
    lemma_keeps(a, b, k);
    if tag == "hierarchical_label"@ && item == Item::FramedLabel {
        lemma_still_drawn(f, item, node, libraries, a, k);
    } else if tag == "global_label"@ && item == Item::FramedLabel {
        lemma_still_drawn(f, item, node, libraries, b, k);
    } else if tag == "label"@ && item == Item::Label {
        lemma_still_drawn(f, item, node, libraries, c, k);
    } else if tag == "bus"@ && item == Item::Bus {
        lemma_still_drawn(f, item, node, libraries, d, k);
    } else if tag == "wire"@ && item == Item::Wire {
        lemma_still_drawn(f, item, node, libraries, e, k);
    } else if tag == "bus_entry"@ && item == Item::BusEntry {
        lemma_still_drawn(f, item, node, libraries, g, k);
    } else if tag == "no_connect"@ && item == Item::NoConnect {
        lemma_still_drawn(f, item, node, libraries, h, k);
    } else {
        assert(tag == "text"@);
    }
}

proof fn lemma_annotations_keep<F: Fn(Query) -> Reply>(p: Picture, f: F, root: crate::sexp::Sexp)
    ensures
        keeps(p, p.annotations(f, root)),
{
    let a = p.all(f, Item::FramedLabel, root, "hierarchical_label"@);
    let b = a.all(f, Item::FramedLabel, root, "global_label"@);
    let c = b.all(f, Item::Label, root, "label"@);
    let d = c.all(f, Item::Bus, root, "bus"@);
    let e = d.all(f, Item::Wire, root, "wire"@);
    let g = e.all(f, Item::BusEntry, root, "bus_entry"@);
    let h = g.all(f, Item::NoConnect, root, "no_connect"@);
    let k = h.all(f, Item::Text, root, "text"@);
    lemma_all(p, f, Item::FramedLabel, root, "hierarchical_label"@);
    lemma_all(a, f, Item::FramedLabel, root, "global_label"@);
    lemma_all(b, f, Item::Label, root, "label"@);
    lemma_all(c, f, Item::Bus, root, "bus"@);
    lemma_all(d, f, Item::Wire, root, "wire"@);
    lemma_all(e, f, Item::BusEntry, root, "bus_entry"@);
    lemma_all(g, f, Item::NoConnect, root, "no_connect"@);
    lemma_all(h, f, Item::Text, root, "text"@);
    lemma_keeps(p, a, b);
    lemma_keeps(p, b, c);
    lemma_keeps(p, c, d);
    lemma_keeps(p, d, e);
    lemma_keeps(p, e, g);
    lemma_keeps(p, g, h);
    lemma_keeps(p, h, k);
}

proof fn lemma_again<F: Fn(Query) -> Reply>(
    p: Picture,
    f: F,
    nodes: Seq<crate::sexp::Sexp>,
    libraries: Seq<crate::sexp::Sexp>,
    symbols: Seq<crate::scene_builder::Thing>,
    n: nat,
)
    ensures
        keeps(p, p.overlapping_again(f, nodes, libraries, symbols, n)),
    decreases n,
{
    lemma_same(p);
    if n > 0 {
        lemma_again(p, f, nodes, libraries, symbols, (n - 1) as nat);
        let before = p.overlapping_again(f, nodes, libraries, symbols, (n - 1) as nat);
        let after = p.overlapping_again(f, nodes, libraries, symbols, n);
        lemma_same(before);
        lemma_symbol_again(before, f, nodes[n - 1], libraries);
        assert(keeps(before, after));
        lemma_keeps(p, before, after);
    }
}

/// Every label, line, cross, text and junction of a document is drawn, as its kind is.
pub proof fn every_item_is_drawn<F: Fn(Query) -> Reply>(
    p: Picture,
    f: F,
    root: crate::sexp::Sexp,
    svg: Option<Seq<char>>,
    ranks: Ranks,
    i: int,
    tag: Seq<char>,
    item: Item,
)
    requires
        0 <= i < root.items().len(),
        root.items()[i].part_text(0) == Some(tag),
        is_class(tag, item) || (tag == "junction"@ && item == Item::Junction),
    ensures
        is_drawn(
            f,
            item,
            root.items()[i],
            crate::attachment::libraries_of(root),
            p.document(f, root, svg, ranks),
        ),
{
    let libraries = crate::attachment::libraries_of(root);
    let nodes = root.tagged("symbol"@);
    let sheets = crate::document_drawing::sheets_in_order(root);
    let sheeted = p.outlines(sheets, sheets.len()).items(f, Item::Sheet, sheets, libraries);
    let placed = sheeted.items(
        f,
        Item::Symbol,
        crate::document_drawing::arranged(nodes, ranks.things, ranks.plot, svg, 0),
        libraries,
    );
    let again = crate::document_drawing::arranged(nodes, ranks.things, ranks.redraw, svg, 1);
    let noted = placed.annotations(f, root);
    let symbols = placed.things.skip(sheeted.things.len() as int);
    let shown = noted.overlapping_again(f, again, libraries, symbols, again.len());
    let end = shown.all(f, Item::Junction, root, "junction"@);
    assert(end == p.document(f, root, svg, ranks));
    lemma_again(noted, f, again, libraries, symbols, again.len());
    lemma_all(shown, f, Item::Junction, root, "junction"@);
    lemma_keeps(noted, shown, end);
    if is_class(tag, item) {
        lemma_annotations(placed, f, root, i, tag, item);
        lemma_still_drawn(f, item, root.items()[i], libraries, noted, end);
    }
}

proof fn lemma_held<F: Fn(Query) -> Reply>(
    f: F,
    item: Item,
    node: crate::sexp::Sexp,
    libraries: Seq<crate::sexp::Sexp>,
    end: Picture,
    shape: Shape,
)
    requires
        is_drawn(f, item, node, libraries, end),
        forall|q: Picture|
            (#[trigger] q.item(f, item, node, libraries)).shapes.contains(shape),
    ensures
        end.shapes.contains(shape),
{
    let q = choose|q: Picture| #[trigger] is_drawn_on(q, f, item, node, libraries, end);
    let own = q.item(f, item, node, libraries).shapes;
    reveal(keeps);
    assert(own.contains(shape));
    let i = choose|i: int| 0 <= i < own.len() && own[i] == shape;
    assert(end.shapes[i] == shape);
}

proof fn lemma_lines(
    points: Seq<Point>,
    style: crate::primitives::StrokeStyle,
    n: nat,
    k: int,
)
    requires
        0 <= k < n,
    ensures
        crate::scene_builder::lines_between(points, style, n).contains(
            Shape::Line { from: points[k], to: points[k + 1], style },
        ),
    decreases n,
{
    let before = crate::scene_builder::lines_between(points, style, (n - 1) as nat);
    if k < n - 1 {
        lemma_lines(points, style, (n - 1) as nat, k);
    }
    crate::sequences::pushed_holds(
        before,
        Shape::Line { from: points[n - 1], to: points[n as int], style },
        Shape::Line { from: points[k], to: points[k + 1], style },
    );
}

/// A wire, and likewise a bus, is drawn from each of its points to the next, in its own colour.
pub proof fn wires_are_drawn<F: Fn(Query) -> Reply>(
    p: Picture,
    f: F,
    root: crate::sexp::Sexp,
    svg: Option<Seq<char>>,
    ranks: Ranks,
    i: int,
    k: int,
)
    requires
        0 <= i < root.items().len(),
        0 <= k < crate::readers::points_of(root.items()[i]).len() - 1,
    ensures
        ({
            let node = root.items()[i];
            let points = crate::readers::points_of(node);
            let width = crate::scene_builder::stroke_of(node, crate::scene_builder::usual_width());
            let drawn = p.document(f, root, svg, ranks).shapes;
            &&& node.part_text(0) == Some("wire"@) ==> drawn.contains(
                Shape::Line {
                    from: points[k],
                    to: points[k + 1],
                    style: crate::primitives::StrokeStyle {
                        width_mm: width,
                        role: ColorRole::Wire,
                    },
                },
            )
            &&& node.part_text(0) == Some("bus"@) ==> drawn.contains(
                Shape::Line {
                    from: points[k],
                    to: points[k + 1],
                    style: crate::primitives::StrokeStyle { width_mm: width, role: ColorRole::Bus },
                },
            )
        }),
{
    let node = root.items()[i];
    let points = crate::readers::points_of(node);
    let width = crate::scene_builder::stroke_of(node, crate::scene_builder::usual_width());
    let libraries = crate::attachment::libraries_of(root);
    let end = p.document(f, root, svg, ranks);
    let n = (points.len() - 1) as nat;
    if node.part_text(0) == Some("wire"@) {
        let style = crate::primitives::StrokeStyle { width_mm: width, role: ColorRole::Wire };
        let shape = Shape::Line { from: points[k], to: points[k + 1], style };
        every_item_is_drawn(p, f, root, svg, ranks, i, "wire"@, Item::Wire);
        lemma_lines(points, style, n, k);
        assert forall|q: Picture|
            (#[trigger] q.item(f, Item::Wire, node, libraries)).shapes.contains(shape) by {
            crate::sequences::either_holds(
                q.shapes,
                crate::scene_builder::lines_between(points, style, n),
                shape,
            );
        }
        lemma_held(f, Item::Wire, node, libraries, end, shape);
    }
    if node.part_text(0) == Some("bus"@) {
        let style = crate::primitives::StrokeStyle { width_mm: width, role: ColorRole::Bus };
        let shape = Shape::Line { from: points[k], to: points[k + 1], style };
        every_item_is_drawn(p, f, root, svg, ranks, i, "bus"@, Item::Bus);
        lemma_lines(points, style, n, k);
        assert forall|q: Picture|
            (#[trigger] q.item(f, Item::Bus, node, libraries)).shapes.contains(shape) by {
            crate::sequences::either_holds(
                q.shapes,
                crate::scene_builder::lines_between(points, style, n),
                shape,
            );
        }
        lemma_held(f, Item::Bus, node, libraries, end, shape);
    }
}

/// A filled dot round a point.
pub open spec fn is_dot(shape: Shape, center: Point) -> bool {
    shape matches Shape::Circle { center: c, fill, style, .. } && c == center && fill && style.role
        == ColorRole::Junction
}

/// Words in a colour.
pub open spec fn is_text(shape: Shape, text: Seq<char>, role: ColorRole) -> bool {
    shape matches Shape::Text(words) && words.text == text && words.role == role
}

/// A picture holds a filled dot round a point.
pub open spec fn holds_dot(drawn: Seq<Shape>, center: Point) -> bool {
    exists|k: int| 0 <= k < drawn.len() && is_dot(#[trigger] drawn[k], center)
}

/// A picture holds words in a colour.
pub open spec fn holds_text(drawn: Seq<Shape>, text: Seq<char>, role: ColorRole) -> bool {
    exists|k: int| 0 <= k < drawn.len() && is_text(#[trigger] drawn[k], text, role)
}

/// A junction is drawn as a filled dot where it stands.
pub proof fn junctions_are_drawn<F: Fn(Query) -> Reply>(
    p: Picture,
    f: F,
    root: crate::sexp::Sexp,
    svg: Option<Seq<char>>,
    ranks: Ranks,
    i: int,
    center: Point,
)
    requires
        0 <= i < root.items().len(),
        root.items()[i].part_text(0) == Some("junction"@),
        root.items()[i].at_point() == Some(center),
    ensures
        holds_dot(p.document(f, root, svg, ranks).shapes, center),
{
    let node = root.items()[i];
    let libraries = crate::attachment::libraries_of(root);
    let end = p.document(f, root, svg, ranks);
    every_item_is_drawn(p, f, root, svg, ranks, i, "junction"@, Item::Junction);
    let q = choose|q: Picture| #[trigger]
        is_drawn_on(q, f, Item::Junction, node, libraries, end);
    let own = q.item(f, Item::Junction, node, libraries).shapes;
    let k = q.shapes.len() as int;
    assert(is_dot(own[k], center));
    reveal(keeps);
    assert(end.shapes[k] == own[k]);
}

/// A label, and likewise a text of the sheet, is drawn with its words unless it is hidden.
pub proof fn words_are_drawn<F: Fn(Query) -> Reply>(
    p: Picture,
    f: F,
    root: crate::sexp::Sexp,
    svg: Option<Seq<char>>,
    ranks: Ranks,
    i: int,
    text: Seq<char>,
)
    requires
        0 <= i < root.items().len(),
        root.items()[i].at_point() is Some,
        root.items()[i].part_text(1) == Some(text),
        !root.items()[i].hidden(),
    ensures
        ({
            let word = root.items()[i].part_text(0);
            let drawn = p.document(f, root, svg, ranks).shapes;
            &&& word == Some("label"@) ==> holds_text(drawn, text, ColorRole::Label)
            &&& word == Some("global_label"@) ==> holds_text(drawn, text, ColorRole::Symbol)
            &&& word == Some("hierarchical_label"@) ==> holds_text(drawn, text, ColorRole::Symbol)
            &&& word == Some("text"@) ==> holds_text(drawn, text, ColorRole::GraphicText)
        }),
{
    let node = root.items()[i];
    let libraries = crate::attachment::libraries_of(root);
    let end = p.document(f, root, svg, ranks);
    let word = node.part_text(0);
    if word == Some("label"@) {
        every_item_is_drawn(p, f, root, svg, ranks, i, "label"@, Item::Label);
        let q = choose|q: Picture| #[trigger]
            is_drawn_on(q, f, Item::Label, node, libraries, end);
        let own = q.item(f, Item::Label, node, libraries).shapes;
        let k = q.shapes.len() as int;
        assert(is_text(own[k], text, ColorRole::Label));
        reveal(keeps);
        assert(end.shapes[k] == own[k]);
    }
    if word == Some("global_label"@) || word == Some("hierarchical_label"@) {
        every_item_is_drawn(p, f, root, svg, ranks, i, word->0, Item::FramedLabel);
        let q = choose|q: Picture| #[trigger]
            is_drawn_on(q, f, Item::FramedLabel, node, libraries, end);
        let own = q.item(f, Item::FramedLabel, node, libraries).shapes;
        let k = q.shapes.len() + 1;
        assert(is_text(own[k as int], text, ColorRole::Symbol));
        reveal(keeps);
        assert(end.shapes[k as int] == own[k as int]);
    }
    if word == Some("text"@) {
        every_item_is_drawn(p, f, root, svg, ranks, i, "text"@, Item::Text);
        let q = choose|q: Picture| #[trigger]
            is_drawn_on(q, f, Item::Text, node, libraries, end);
        let own = q.item(f, Item::Text, node, libraries).shapes;
        let k = q.shapes.len() as int;
        assert(is_text(own[k], text, ColorRole::GraphicText));
        reveal(keeps);
        assert(end.shapes[k] == own[k]);
    }
}

/// A bus entry is drawn from where it stands as far as its size says.
pub proof fn bus_entries_are_drawn<F: Fn(Query) -> Reply>(
    p: Picture,
    f: F,
    root: crate::sexp::Sexp,
    svg: Option<Seq<char>>,
    ranks: Ranks,
    i: int,
    a: Point,
    b: Point,
)
    requires
        crate::warnings::is_entry(root, i, a, b),
    ensures
        exists|k: int|
            0 <= k < p.document(f, root, svg, ranks).shapes.len() && crate::placing::is_stroke(
                #[trigger] p.document(f, root, svg, ranks).shapes[k],
                a,
                b,
            ),
{
    let node = root.items()[i];
    let libraries = crate::attachment::libraries_of(root);
    let end = p.document(f, root, svg, ranks);
    every_item_is_drawn(p, f, root, svg, ranks, i, "bus_entry"@, Item::BusEntry);
    let q = choose|q: Picture| #[trigger]
        is_drawn_on(q, f, Item::BusEntry, node, libraries, end);
    let own = q.item(f, Item::BusEntry, node, libraries).shapes;
    let k = q.shapes.len() as int;
    assert(crate::placing::is_stroke(own[k], a, b));
    reveal(keeps);
    assert(end.shapes[k] == own[k]);
}

/// A no-connect marker is drawn as two strokes that cross: each ends as far to the right of where the
/// marker stands as it begins to the left, one downwards and one upwards.
pub proof fn no_connects_are_crossed<F: Fn(Query) -> Reply>(
    p: Picture,
    f: F,
    root: crate::sexp::Sexp,
    svg: Option<Seq<char>>,
    ranks: Ranks,
    i: int,
    c: Point,
)
    requires
        0 <= i < root.items().len(),
        root.items()[i].part_text(0) == Some("no_connect"@),
        root.items()[i].at_point() == Some(c),
    ensures
        exists|k: int, l: Point, r: Point|
            0 <= k < p.document(f, root, svg, ranks).shapes.len() - 1 && l.x == r.x
                && crate::placing::is_stroke(
                #[trigger] p.document(f, root, svg, ranks).shapes[k],
                Point { x: c.x.spec_difference(l.x), y: c.y.spec_difference(l.y) },
                Point { x: c.x.spec_sum(r.x), y: c.y.spec_sum(r.y) },
            ) && #[trigger] crosses(
                p.document(f, root, svg, ranks).shapes[k + 1],
                c,
                l,
                r,
            ),
{
    let node = root.items()[i];
    let libraries = crate::attachment::libraries_of(root);
    let end = p.document(f, root, svg, ranks);
    every_item_is_drawn(p, f, root, svg, ranks, i, "no_connect"@, Item::NoConnect);
    let q = choose|q: Picture| #[trigger]
        is_drawn_on(q, f, Item::NoConnect, node, libraries, end);
    let own = q.item(f, Item::NoConnect, node, libraries).shapes;
    let k = q.shapes.len() as int;
    let w = crate::double::spec_ratio(6096, 10000);
    let l = Point { x: w, y: w };
    reveal(keeps);
    assert(end.shapes[k] == own[k]);
    assert(end.shapes[k + 1] == own[k + 1]);
    assert(crosses(end.shapes[k + 1], c, l, l));
}

/// The second stroke of a cross: from the lower left to the upper right.
pub open spec fn crosses(shape: Shape, c: Point, l: Point, r: Point) -> bool {
    crate::placing::is_stroke(
        shape,
        Point { x: c.x.spec_difference(l.x), y: c.y.spec_sum(l.y) },
        Point { x: c.x.spec_sum(r.x), y: c.y.spec_difference(r.y) },
    )
}

proof fn lemma_picked<T>(nodes: Seq<T>, lt: spec_fn(usize, usize) -> bool, k: int)
    requires
        crate::stl_sort::strict_weak_order(lt),
        nodes.len() <= usize::MAX,
        0 <= k < nodes.len(),
    ensures
        crate::document_drawing::picked(
            nodes,
            crate::ordering::stable_by(nodes.len(), lt),
        ).contains(nodes[k]),
        crate::document_drawing::picked(nodes, crate::ordering::stable_by(nodes.len(), lt)).len()
            == nodes.len(),
{
    crate::ordering::stable_order_leaves_out_nothing(nodes.len(), lt);
    let order = crate::ordering::stable_by(nodes.len(), lt);
    assert(order.contains(k as usize));
    let j = choose|j: int| 0 <= j < order.len() && order[j] == k as usize;
    assert(crate::document_drawing::picked(nodes, order)[j] == nodes[k]);
}

proof fn lemma_arranged(
    nodes: Seq<crate::sexp::Sexp>,
    things: Seq<crate::scene_builder::Thing>,
    order: Seq<usize>,
    svg: Option<Seq<char>>,
    occurrence: nat,
    k: int,
)
    requires
        nodes.len() <= usize::MAX,
        0 <= k < nodes.len(),
    ensures
        crate::document_drawing::arranged(nodes, things, order, svg, occurrence).contains(
            nodes[k],
        ),
{
    let keys = crate::document_drawing::rank_keys(things, order, nodes);
    let lt = crate::ordering::by_key(keys);
    assert(crate::stl_sort::strict_weak_order(lt));
    lemma_picked(nodes, lt, k);
    let ranked = crate::document_drawing::picked(nodes, crate::ordering::stable_places(keys));
    let j = choose|j: int| 0 <= j < ranked.len() && ranked[j] == nodes[k];
    if let Some(svg) = svg {
        if let Some(ranks) = crate::scene::svg_ranks(
            svg,
            crate::document_drawing::references_upto(ranked, ranked.len()),
            occurrence,
        ) {
            let again = crate::document_drawing::svg_keys(ranks, ranked);
            let next = crate::ordering::by_key(again);
            assert(crate::stl_sort::strict_weak_order(next));
            lemma_picked(ranked, next, j);
        }
    }
}

proof fn lemma_outlines(p: Picture, sheets: Seq<crate::sexp::Sexp>, n: nat)
    ensures
        keeps(p, p.outlines(sheets, n)),
    decreases n,
{
    lemma_same(p);
    if n > 0 {
        lemma_outlines(p, sheets, (n - 1) as nat);
        let before = p.outlines(sheets, (n - 1) as nat);
        lemma_with(before, crate::label_drawing::sheet_outline(sheets[n - 1]));
        lemma_keeps(p, before, p.outlines(sheets, n));
    }
}

/// Every symbol of a document is drawn, whatever order they are drawn in.
pub proof fn every_symbol_is_drawn<F: Fn(Query) -> Reply>(
    p: Picture,
    f: F,
    root: crate::sexp::Sexp,
    svg: Option<Seq<char>>,
    ranks: Ranks,
    i: int,
)
    requires
        0 <= i < root.items().len() <= usize::MAX,
        root.items()[i].part_text(0) == Some("symbol"@),
    ensures
        is_drawn(
            f,
            Item::Symbol,
            root.items()[i],
            crate::attachment::libraries_of(root),
            p.document(f, root, svg, ranks),
        ),
{
    let libraries = crate::attachment::libraries_of(root);
    let nodes = root.tagged("symbol"@);
    let sheets = crate::document_drawing::sheets_in_order(root);
    let sheeted = p.outlines(sheets, sheets.len()).items(f, Item::Sheet, sheets, libraries);
    let order = crate::document_drawing::arranged(nodes, ranks.things, ranks.plot, svg, 0);
    let placed = sheeted.items(f, Item::Symbol, order, libraries);
    let end = p.document(f, root, svg, ranks);
    crate::sexp::tagged_parts_are_found(root, "symbol"@, i);
    let k = choose|k: int| 0 <= k < nodes.len() && nodes[k] == root.items()[i];
    lemma_tagged_fit(root, "symbol"@);
    lemma_arranged(nodes, ranks.things, ranks.plot, svg, 0, k);
    let j = choose|j: int| 0 <= j < order.len() && order[j] == nodes[k];
    lemma_items(sheeted, f, Item::Symbol, order, libraries, order.len());
    assert(is_drawn(f, Item::Symbol, order[j], libraries, placed));
    lemma_rest(p, f, root, svg, ranks);
    lemma_still_drawn(f, Item::Symbol, order[j], libraries, placed, end);
}

proof fn lemma_tagged_fit(root: crate::sexp::Sexp, tag: Seq<char>)
    ensures
        root.tagged(tag).len() <= root.items().len(),
{
    crate::sexp::tagged_parts_are_those_with_the_word(root, tag);
    let begins = |part: crate::sexp::Sexp| part.part_text(0) == Some(tag);
    root.items().lemma_filter_len(begins);
}

proof fn lemma_rest<F: Fn(Query) -> Reply>(
    p: Picture,
    f: F,
    root: crate::sexp::Sexp,
    svg: Option<Seq<char>>,
    ranks: Ranks,
)
    ensures
        ({
            let libraries = crate::attachment::libraries_of(root);
            let nodes = root.tagged("symbol"@);
            let sheets = crate::document_drawing::sheets_in_order(root);
            let sheeted = p.outlines(sheets, sheets.len()).items(
                f,
                Item::Sheet,
                sheets,
                libraries,
            );
            let placed = sheeted.items(
                f,
                Item::Symbol,
                crate::document_drawing::arranged(nodes, ranks.things, ranks.plot, svg, 0),
                libraries,
            );
            &&& keeps(sheeted, p.document(f, root, svg, ranks))
            &&& keeps(placed, p.document(f, root, svg, ranks))
            &&& keeps(p, p.document(f, root, svg, ranks))
        }),
{
    let libraries = crate::attachment::libraries_of(root);
    let nodes = root.tagged("symbol"@);
    let sheets = crate::document_drawing::sheets_in_order(root);
    let outlined = p.outlines(sheets, sheets.len());
    let sheeted = outlined.items(f, Item::Sheet, sheets, libraries);
    let order = crate::document_drawing::arranged(nodes, ranks.things, ranks.plot, svg, 0);
    let placed = sheeted.items(f, Item::Symbol, order, libraries);
    let again = crate::document_drawing::arranged(nodes, ranks.things, ranks.redraw, svg, 1);
    let noted = placed.annotations(f, root);
    let symbols = placed.things.skip(sheeted.things.len() as int);
    let shown = noted.overlapping_again(f, again, libraries, symbols, again.len());
    let end = shown.all(f, Item::Junction, root, "junction"@);
    assert(end == p.document(f, root, svg, ranks));
    lemma_outlines(p, sheets, sheets.len());
    lemma_items(outlined, f, Item::Sheet, sheets, libraries, sheets.len());
    lemma_items(sheeted, f, Item::Symbol, order, libraries, order.len());
    lemma_annotations_keep(placed, f, root);
    lemma_again(noted, f, again, libraries, symbols, again.len());
    lemma_all(shown, f, Item::Junction, root, "junction"@);
    lemma_keeps(noted, shown, end);
    lemma_keeps(placed, noted, end);
    lemma_keeps(sheeted, placed, end);
    lemma_keeps(outlined, sheeted, end);
    lemma_keeps(p, outlined, end);
}

/// Every sheet of a document is drawn, whatever order they are drawn in.
pub proof fn every_sheet_is_drawn<F: Fn(Query) -> Reply>(
    p: Picture,
    f: F,
    root: crate::sexp::Sexp,
    svg: Option<Seq<char>>,
    ranks: Ranks,
    i: int,
)
    requires
        0 <= i < root.items().len() <= usize::MAX,
        root.items()[i].part_text(0) == Some("sheet"@),
        forall|k: int|
            0 <= k < root.items().len() ==> {
                let corner = crate::warnings::corner_of(#[trigger] root.items()[k]);
                corner.x.wf() && corner.y.wf()
            },
    ensures
        is_drawn(
            f,
            Item::Sheet,
            root.items()[i],
            crate::attachment::libraries_of(root),
            p.document(f, root, svg, ranks),
        ),
{
    let libraries = crate::attachment::libraries_of(root);
    let nodes = root.tagged("sheet"@);
    let sheets = crate::document_drawing::sheets_in_order(root);
    let outlined = p.outlines(sheets, sheets.len());
    let sheeted = outlined.items(f, Item::Sheet, sheets, libraries);
    let end = p.document(f, root, svg, ranks);
    crate::sexp::tagged_parts_are_found(root, "sheet"@, i);
    let k = choose|k: int| 0 <= k < nodes.len() && nodes[k] == root.items()[i];
    lemma_tagged_fit(root, "sheet"@);
    assert forall|m: int| 0 <= m < nodes.len() implies {
        &&& crate::document_drawing::corner_of(#[trigger] nodes[m]).x.wf()
        &&& crate::document_drawing::corner_of(nodes[m]).y.wf()
    } by {
        let a = crate::sexp::tagged_parts_are_parts(root, "sheet"@, m);
        assert(crate::warnings::corner_of(root.items()[a]).x.wf());
    }
    crate::document_drawing::corners_are_ordered(nodes);
    lemma_picked(nodes, crate::document_drawing::by_corner(nodes), k);
    let j = choose|j: int| 0 <= j < sheets.len() && sheets[j] == nodes[k];
    lemma_items(outlined, f, Item::Sheet, sheets, libraries, sheets.len());
    assert(is_drawn(f, Item::Sheet, sheets[j], libraries, sheeted));
    lemma_rest(p, f, root, svg, ranks);
    lemma_still_drawn(f, Item::Sheet, sheets[j], libraries, sheeted, end);
}

/// A sheet is drawn as a box from where it stands, as wide and as high as it says.
pub proof fn sheets_are_outlined<F: Fn(Query) -> Reply>(
    f: F,
    node: crate::sexp::Sexp,
    libraries: Seq<crate::sexp::Sexp>,
    end: Picture,
    at: Point,
    width: crate::double::Double,
    height: crate::double::Double,
)
    requires
        is_drawn(f, Item::Sheet, node, libraries, end),
        node.at_point() == Some(at),
        node.tag_point("size"@) == Some(Point { x: width, y: height }),
    ensures
        exists|k: int|
            0 <= k < end.shapes.len() && is_box(
                #[trigger] end.shapes[k],
                at,
                Point { x: at.x.spec_sum(width), y: at.y.spec_sum(height) },
            ),
{
    let q = choose|q: Picture| #[trigger] is_drawn_on(q, f, Item::Sheet, node, libraries, end);
    let own = q.item(f, Item::Sheet, node, libraries).shapes;
    let k = q.shapes.len() as int;
    let far = Point { x: at.x.spec_sum(width), y: at.y.spec_sum(height) };
    assert(is_box(own[k], at, far));
    reveal(keeps);
    assert(end.shapes[k] == own[k]);
}

/// A box from one corner to the other.
pub open spec fn is_box(shape: Shape, from: Point, to: Point) -> bool {
    shape matches Shape::Rect { bounds, .. } && bounds.min_x == from.x && bounds.min_y == from.y
        && bounds.max_x == to.x && bounds.max_y == to.y
}

proof fn lemma_stubs<F: Fn(Query) -> Reply>(
    f: F,
    pins: Seq<crate::sexp::Sexp>,
    n: nat,
    k: int,
    at: Point,
    name: Seq<char>,
)
    requires
        0 <= k < n <= pins.len(),
        pins[k].at_point() == Some(at),
        pins[k].part_text(1) == Some(name),
    ensures
        exists|m: int|
            0 <= m < crate::label_drawing::sheet_pins(f, pins, n).len() && begins_at(
                #[trigger] crate::label_drawing::sheet_pins(f, pins, n)[m],
                at,
            ),
        holds_text(crate::label_drawing::sheet_pins(f, pins, n), name, ColorRole::Pin),
    decreases n,
{
    let before = crate::label_drawing::sheet_pins(f, pins, (n - 1) as nat);
    let own = crate::label_drawing::sheet_pin(f, pins[n - 1]);
    let all = crate::label_drawing::sheet_pins(f, pins, n);
    if k < n - 1 {
        lemma_stubs(f, pins, (n - 1) as nat, k, at, name);
        let m = choose|m: int| 0 <= m < before.len() && begins_at(#[trigger] before[m], at);
        assert(all[m] == before[m]);
        let t = choose|t: int|
            0 <= t < before.len() && is_text(#[trigger] before[t], name, ColorRole::Pin);
        assert(all[t] == before[t]);
    } else {
        assert(all[before.len() as int] == own[0]);
        assert(begins_at(all[before.len() as int], at));
        assert(all[before.len() as int + 1] == own[1]);
        assert(is_text(all[before.len() as int + 1], name, ColorRole::Pin));
    }
}

/// A line that begins at a point.
pub open spec fn begins_at(shape: Shape, at: Point) -> bool {
    shape matches Shape::Line { from, .. } && from == at
}

/// Every pin of a sheet is drawn as a line from where it stands, with its name.
pub proof fn sheet_pins_are_drawn<F: Fn(Query) -> Reply>(
    f: F,
    node: crate::sexp::Sexp,
    libraries: Seq<crate::sexp::Sexp>,
    end: Picture,
    k: int,
    at: Point,
    name: Seq<char>,
)
    requires
        is_drawn(f, Item::Sheet, node, libraries, end),
        node.at_point() is Some,
        crate::placing::is_pin(node, k, at),
        node.items()[k].part_text(1) == Some(name),
    ensures
        exists|m: int| 0 <= m < end.shapes.len() && begins_at(#[trigger] end.shapes[m], at),
        holds_text(end.shapes, name, ColorRole::Pin),
{
    let q = choose|q: Picture| #[trigger] is_drawn_on(q, f, Item::Sheet, node, libraries, end);
    let own = q.item(f, Item::Sheet, node, libraries).shapes;
    let pins = node.tagged("pin"@);
    let fields = node.properties();
    crate::sexp::tagged_parts_are_found(node, "pin"@, k);
    let j = choose|j: int| 0 <= j < pins.len() && pins[j] == node.items()[k];
    lemma_stubs(f, pins, pins.len(), j, at, name);
    let stubs = crate::label_drawing::sheet_pins(f, pins, pins.len());
    let before = q.shapes + crate::label_drawing::sheet_outline(node)
        + crate::label_drawing::sheet_fields(fields, fields.len());
    assert(own == before + stubs);
    let m = choose|m: int| 0 <= m < stubs.len() && begins_at(#[trigger] stubs[m], at);
    let t = choose|t: int| 0 <= t < stubs.len() && is_text(#[trigger] stubs[t], name, ColorRole::Pin);
    reveal(keeps);
    assert(own[before.len() + m] == stubs[m]);
    assert(own[before.len() + t] == stubs[t]);
    assert(begins_at(end.shapes[before.len() + m], at));
    assert(is_text(end.shapes[before.len() + t], name, ColorRole::Pin));
}

proof fn lemma_boxed<F: Fn(Query) -> Reply>(f: F, shapes: Seq<Shape>, bare: bool, n: nat, k: int)
    requires
        0 <= k < n <= shapes.len(),
        crate::primitives::box_of(f, shapes[k]) is Some,
        !(bare && crate::primitives::is_pin_text(shapes[k])),
    ensures
        crate::primitives::box_round(f, shapes, bare, n) is Some,
    decreases n,
{
    if k < n - 1 {
        lemma_boxed(f, shapes, bare, (n - 1) as nat, k);
    }
}

/// An object of a kind can be selected by its identifier.
pub open spec fn can_select(p: Picture, uuid: Seq<char>, kind: ObjectKind) -> bool {
    exists|k: int|
        0 <= k < p.things.len() && (#[trigger] p.things[k]).uuid == uuid && p.things[k].kind
            == kind
}

proof fn lemma_chosen<F: Fn(Query) -> Reply>(
    base: Picture,
    f: F,
    node: crate::sexp::Sexp,
    kind: ObjectKind,
    label: Seq<char>,
    start: nat,
    k: nat,
    uuid: Seq<char>,
    end: Picture,
)
    requires
        keeps(base.with_object(f, node, kind, label, start), end),
        start + k < base.shapes.len(),
        crate::primitives::box_of(f, base.shapes[(start + k) as int]) is Some,
        kind != ObjectKind::Symbol,
        node.first_text("uuid"@) == Some(uuid),
        uuid.len() > 0,
    ensures
        can_select(end, uuid, kind),
{
    let shapes = base.shapes.skip(start as int);
    assert(shapes[k as int] == base.shapes[(start + k) as int]);
    lemma_boxed(f, shapes, false, shapes.len(), k as int);
    let own = base.with_object(f, node, kind, label, start);
    reveal(keeps);
    assert(own.things[base.things.len() as int].uuid == uuid);
    assert(end.things[base.things.len() as int].uuid == uuid);
}

/// A wire or a bus that has an identifier can be selected by it, as what it is.
pub proof fn lines_can_be_selected<F: Fn(Query) -> Reply>(
    f: F,
    item: Item,
    node: crate::sexp::Sexp,
    libraries: Seq<crate::sexp::Sexp>,
    end: Picture,
    uuid: Seq<char>,
)
    requires
        is_drawn(f, item, node, libraries, end),
        node.first_text("uuid"@) == Some(uuid),
        uuid.len() > 0,
        crate::readers::points_of(node).len() >= 2,
    ensures
        item == Item::Wire ==> can_select(end, uuid, ObjectKind::Wire),
        item == Item::Bus ==> can_select(end, uuid, ObjectKind::Bus),
{
    let q = choose|q: Picture| #[trigger] is_drawn_on(q, f, item, node, libraries, end);
    if item == Item::Wire || item == Item::Bus {
        let points = crate::readers::points_of(node);
        let (role, kind) = if item == Item::Wire {
            (ColorRole::Wire, ObjectKind::Wire)
        } else {
            (ColorRole::Bus, ObjectKind::Bus)
        };
        let style = crate::scene_builder::style_of(
            crate::scene_builder::stroke_of(node, crate::scene_builder::usual_width()),
            role,
        );
        let n = (points.len() - 1) as nat;
        let lines = crate::scene_builder::lines_between(points, style, n);
        lemma_lines(points, style, n, 0);
        let k = choose|k: int|
            0 <= k < lines.len() && lines[k] == (Shape::Line {
                from: points[0],
                to: points[1],
                style,
            });
        let base = q.with(lines);
        assert(base.shapes[q.shapes.len() + k] == lines[k]);
        lemma_chosen(
            base,
            f,
            node,
            kind,
            crate::scene::name_of_role(role),
            q.shapes.len(),
            k as nat,
            uuid,
            end,
        );
    }
}

/// A junction, a no-connect marker or a bus entry that has an identifier can be selected by it, as
/// what it is.
pub proof fn marks_can_be_selected<F: Fn(Query) -> Reply>(
    f: F,
    item: Item,
    node: crate::sexp::Sexp,
    libraries: Seq<crate::sexp::Sexp>,
    end: Picture,
    uuid: Seq<char>,
)
    requires
        is_drawn(f, item, node, libraries, end),
        node.first_text("uuid"@) == Some(uuid),
        uuid.len() > 0,
        node.at_point() is Some,
    ensures
        item == Item::Junction ==> can_select(end, uuid, ObjectKind::Junction),
        item == Item::NoConnect ==> can_select(end, uuid, ObjectKind::NoConnect),
        item == Item::BusEntry && node.first("size"@) is Some ==> can_select(
            end,
            uuid,
            ObjectKind::BusEntry,
        ),
{
    let q = choose|q: Picture| #[trigger] is_drawn_on(q, f, item, node, libraries, end);
    let own = q.item(f, item, node, libraries);
    let base = Picture { shapes: own.shapes, things: q.things };
    let n = q.shapes.len();
    if item == Item::Junction {
        assert(own == base.with_object(f, node, ObjectKind::Junction, "junction"@, n));
        lemma_chosen(base, f, node, ObjectKind::Junction, "junction"@, n, 0, uuid, end);
    } else if item == Item::NoConnect {
        assert(own == base.with_object(f, node, ObjectKind::NoConnect, "no connect"@, n));
        lemma_chosen(base, f, node, ObjectKind::NoConnect, "no connect"@, n, 0, uuid, end);
    } else if item == Item::BusEntry && node.first("size"@) is Some {
        assert(own == base.with_object(f, node, ObjectKind::BusEntry, "bus entry"@, n));
        lemma_chosen(base, f, node, ObjectKind::BusEntry, "bus entry"@, n, 0, uuid, end);
    }
}

/// A label or a text that is shown and has an identifier can be selected by it, as what it is.
pub proof fn words_can_be_selected<F: Fn(Query) -> Reply>(
    f: F,
    item: Item,
    node: crate::sexp::Sexp,
    libraries: Seq<crate::sexp::Sexp>,
    end: Picture,
    uuid: Seq<char>,
)
    requires
        is_drawn(f, item, node, libraries, end),
        node.first_text("uuid"@) == Some(uuid),
        uuid.len() > 0,
        node.at_point() is Some,
        !node.hidden(),
    ensures
        item == Item::Label ==> can_select(end, uuid, ObjectKind::Label),
        item == Item::FramedLabel ==> can_select(end, uuid, ObjectKind::Label),
        item == Item::Text ==> can_select(end, uuid, ObjectKind::Text),
{
    let q = choose|q: Picture| #[trigger] is_drawn_on(q, f, item, node, libraries, end);
    let own = q.item(f, item, node, libraries);
    let base = Picture { shapes: own.shapes, things: q.things };
    let n = q.shapes.len();
    let text = crate::text_box::shown(node, 1);
    if item == Item::Label {
        assert(own == base.with_object(f, node, ObjectKind::Label, text, n));
        lemma_chosen(base, f, node, ObjectKind::Label, text, n, 0, uuid, end);
    } else if item == Item::FramedLabel {
        assert(own == base.with_object(f, node, ObjectKind::Label, text, n));
        lemma_chosen(base, f, node, ObjectKind::Label, text, n, 1, uuid, end);
    } else if item == Item::Text {
        assert(own == base.with_object(f, node, ObjectKind::Text, text, n));
        lemma_chosen(base, f, node, ObjectKind::Text, text, n, 0, uuid, end);
    }
}

/// A sheet that has an identifier can be selected by it.
pub proof fn sheets_can_be_selected<F: Fn(Query) -> Reply>(
    f: F,
    node: crate::sexp::Sexp,
    libraries: Seq<crate::sexp::Sexp>,
    end: Picture,
    uuid: Seq<char>,
)
    requires
        is_drawn(f, Item::Sheet, node, libraries, end),
        node.first_text("uuid"@) == Some(uuid),
        uuid.len() > 0,
        node.at_point() is Some,
        node.first("size"@) is Some,
    ensures
        can_select(end, uuid, ObjectKind::Sheet),
{
    let q = choose|q: Picture| #[trigger] is_drawn_on(q, f, Item::Sheet, node, libraries, end);
    let fields = node.properties();
    let pins = node.tagged("pin"@);
    let outline = crate::label_drawing::sheet_outline(node);
    let base = q.with(outline).with(
        crate::label_drawing::sheet_fields(fields, fields.len()),
    ).with(crate::label_drawing::sheet_pins(f, pins, pins.len()));
    let label = crate::label_drawing::sheet_label(fields, fields.len());
    assert(q.item(f, Item::Sheet, node, libraries) == base.with_object(
        f,
        node,
        ObjectKind::Sheet,
        label,
        q.shapes.len(),
    ));
    assert(base.shapes[q.shapes.len() as int] == outline[0]);
    lemma_chosen(base, f, node, ObjectKind::Sheet, label, q.shapes.len(), 0, uuid, end);
}

} // verus!
