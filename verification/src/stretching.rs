//! Which wires are stretched when items are moved: those with an end where a moved item holds wires,
//! and no others.

use crate::attachment::Placement;
use crate::attachment::WireItem;
use crate::attachment::WireMove;
use crate::geometry::Point;
use vstd::prelude::*;

verus! {

/// The `k`-th part of a part of a symbol is a pin that comes to lie at `q`.
pub open spec fn pin_lies_at<F: Fn(Point, Placement) -> Point>(
    place: F,
    part: crate::sexp::Sexp,
    at: Placement,
    k: int,
    q: Point,
) -> bool {
    exists|tip: Point| #[trigger]
        crate::placing::is_pin(part, k, tip) && q == crate::attachment::image(place, tip, at)
}

proof fn lemma_pins_upto<F: Fn(Point, Placement) -> Point>(
    place: F,
    pins: Seq<crate::sexp::Sexp>,
    at: Placement,
    n: nat,
    q: Point,
)
    requires
        n <= pins.len(),
    ensures
        crate::attachment::pins_upto(place, pins, at, n).contains(q) <==> exists|k: int|
            0 <= k < n && (#[trigger] pins[k]).at_point() is Some && q == crate::attachment::image(
                place,
                pins[k].at_point()->0,
                at,
            ),
    decreases n,
{
    if n > 0 {
        lemma_pins_upto(place, pins, at, (n - 1) as nat, q);
        let before = crate::attachment::pins_upto(place, pins, at, (n - 1) as nat);
        if let Some(tip) = pins[n - 1].at_point() {
            crate::sequences::pushed_holds(before, crate::attachment::image(place, tip, at), q);
        }
        if before.contains(q) {
            let k = choose|k: int|
                0 <= k < n - 1 && (#[trigger] pins[k]).at_point() is Some && q
                    == crate::attachment::image(place, pins[k].at_point()->0, at);
            assert(pins[k].at_point() is Some);
        }
    }
}

proof fn lemma_own_pins<F: Fn(Point, Placement) -> Point>(
    place: F,
    part: crate::sexp::Sexp,
    at: Placement,
    q: Point,
)
    ensures
        crate::attachment::own_pins(place, part, at).contains(q) <==> exists|k: int| #[trigger]
            pin_lies_at(place, part, at, k, q),
{
    let pins = part.tagged("pin"@);
    lemma_pins_upto(place, pins, at, pins.len(), q);
    if crate::attachment::own_pins(place, part, at).contains(q) {
        let m = choose|m: int|
            0 <= m < pins.len() && (#[trigger] pins[m]).at_point() is Some && q
                == crate::attachment::image(place, pins[m].at_point()->0, at);
        let k = crate::sexp::tagged_parts_are_parts(part, "pin"@, m);
        assert(crate::placing::is_pin(part, k, pins[m].at_point()->0));
        assert(pin_lies_at(place, part, at, k, q));
    }
    if exists|k: int| #[trigger] pin_lies_at(place, part, at, k, q) {
        let k = choose|k: int| #[trigger] pin_lies_at(place, part, at, k, q);
        let tip = choose|tip: Point| #[trigger]
            crate::placing::is_pin(part, k, tip) && q == crate::attachment::image(place, tip, at);
        crate::sexp::tagged_parts_are_found(part, "pin"@, k);
        let m = choose|m: int| 0 <= m < pins.len() && pins[m] == part.items()[k];
        assert(pins[m].at_point() is Some);
    }
}

proof fn lemma_unit_pins<F: Fn(Point, Placement) -> Point>(
    place: F,
    units: Seq<crate::sexp::Sexp>,
    unit: nat,
    at: Placement,
    n: nat,
    q: Point,
)
    requires
        n <= units.len(),
    ensures
        crate::attachment::unit_pins(place, units, unit, at, n).contains(q) <==> exists|
            m: int,
            k: int,
        |
            0 <= m < n && #[trigger] pin_lies_at(place, units[m], at, k, q)
                && crate::attachment::unit_matches(crate::text_box::shown(units[m], 1), unit),
    decreases n,
{
    if n > 0 {
        lemma_unit_pins(place, units, unit, at, (n - 1) as nat, q);
        let before = crate::attachment::unit_pins(place, units, unit, at, (n - 1) as nat);
        let own = crate::attachment::own_pins(place, units[n - 1], at);
        lemma_own_pins(place, units[n - 1], at, q);
        crate::sequences::either_holds(before, own, q);
        if before.contains(q) {
            let (m, k) = choose|m: int, k: int|
                0 <= m < n - 1 && #[trigger] pin_lies_at(place, units[m], at, k, q)
                    && crate::attachment::unit_matches(crate::text_box::shown(units[m], 1), unit);
            assert(pin_lies_at(place, units[m], at, k, q));
        }
    }
}

/// The pins of the units of a definition that are placed come to lie at `q`.
pub open spec fn unit_pin_lies_at<F: Fn(Point, Placement) -> Point>(
    place: F,
    owner: crate::sexp::Sexp,
    unit: nat,
    at: Placement,
    j: int,
    k: int,
    q: Point,
) -> bool {
    crate::placing::is_unit(owner, j, unit) && pin_lies_at(place, owner.items()[j], at, k, q)
}

proof fn lemma_units<F: Fn(Point, Placement) -> Point>(
    place: F,
    owner: crate::sexp::Sexp,
    unit: nat,
    at: Placement,
    q: Point,
)
    ensures
        crate::attachment::unit_pins(
            place,
            owner.tagged("symbol"@),
            unit,
            at,
            owner.tagged("symbol"@).len(),
        ).contains(q) <==> exists|j: int, k: int| #[trigger]
            unit_pin_lies_at(place, owner, unit, at, j, k, q),
{
    let units = owner.tagged("symbol"@);
    lemma_unit_pins(place, units, unit, at, units.len(), q);
    if crate::attachment::unit_pins(place, units, unit, at, units.len()).contains(q) {
        let (m, k) = choose|m: int, k: int|
            0 <= m < units.len() && #[trigger] pin_lies_at(place, units[m], at, k, q)
                && crate::attachment::unit_matches(crate::text_box::shown(units[m], 1), unit);
        let j = crate::sexp::tagged_parts_are_parts(owner, "symbol"@, m);
        assert(unit_pin_lies_at(place, owner, unit, at, j, k, q));
    }
    if exists|j: int, k: int| #[trigger] unit_pin_lies_at(place, owner, unit, at, j, k, q) {
        let (j, k) = choose|j: int, k: int| #[trigger]
            unit_pin_lies_at(place, owner, unit, at, j, k, q);
        crate::sexp::tagged_parts_are_found(owner, "symbol"@, j);
        let m = choose|m: int| 0 <= m < units.len() && units[m] == owner.items()[j];
        assert(pin_lies_at(place, units[m], at, k, q));
    }
}

/// A pin of a part of a placed definition comes to lie at `q`.
pub open spec fn part_pin_lies_at<F: Fn(Point, Placement) -> Point>(
    place: F,
    definition: crate::sexp::Sexp,
    libraries: Seq<crate::sexp::Sexp>,
    unit: nat,
    at: Placement,
    depth: nat,
    line: Seq<crate::sexp::Sexp>,
    part: crate::sexp::Sexp,
    k: int,
    q: Point,
) -> bool {
    &&& crate::placing::is_part(definition, libraries, unit, depth, line, part)
    &&& pin_lies_at(place, part, at, k, q)
}

/// Wires are held by the pins of all parts of a placed definition, and nowhere else.
pub proof fn every_pin_of_a_symbol_holds_wires<F: Fn(Point, Placement) -> Point>(
    place: F,
    definition: crate::sexp::Sexp,
    libraries: Seq<crate::sexp::Sexp>,
    unit: nat,
    at: Placement,
    depth: nat,
    q: Point,
)
    ensures
        crate::attachment::connection_points(
            place,
            definition,
            libraries,
            unit,
            at,
            depth,
        ).contains(q) <==> exists|
            line: Seq<crate::sexp::Sexp>,
            part: crate::sexp::Sexp,
            k: int,
        | #[trigger]
            part_pin_lies_at(place, definition, libraries, unit, at, depth, line, part, k, q),
    decreases depth,
{
    let all = crate::attachment::connection_points(place, definition, libraries, unit, at, depth);
    let own = crate::attachment::own_pins(place, definition, at);
    let units = definition.tagged("symbol"@);
    let of_units = crate::attachment::unit_pins(place, units, unit, at, units.len());
    let parent = match definition.first_text("extends"@) {
        Some(name) => crate::attachment::library_from(libraries, name, libraries.len()),
        None => None,
    };
    let inherited = if depth == 0 || parent is None {
        Seq::empty()
    } else {
        crate::attachment::connection_points(
            place,
            parent->0,
            libraries,
            unit,
            at,
            (depth - 1) as nat,
        )
    };
    assert(all == inherited + own + of_units);
    crate::sequences::either_holds(inherited + own, of_units, q);
    crate::sequences::either_holds(inherited, own, q);
    lemma_own_pins(place, definition, at, q);
    lemma_units(place, definition, unit, at, q);
    if depth > 0 && parent is Some {
        every_pin_of_a_symbol_holds_wires(
            place,
            parent->0,
            libraries,
            unit,
            at,
            (depth - 1) as nat,
            q,
        );
    }
    if all.contains(q) {
        let alone = seq![definition];
        assert(crate::placing::is_line(libraries, alone));
        assert(alone.last() == definition);
        if own.contains(q) {
            let k = choose|k: int| #[trigger] pin_lies_at(place, definition, at, k, q);
            assert(part_pin_lies_at(
                place,
                definition,
                libraries,
                unit,
                at,
                depth,
                alone,
                definition,
                k,
                q,
            ));
        } else if of_units.contains(q) {
            let (j, k) = choose|j: int, k: int| #[trigger]
                unit_pin_lies_at(place, definition, unit, at, j, k, q);
            assert(part_pin_lies_at(
                place,
                definition,
                libraries,
                unit,
                at,
                depth,
                alone,
                definition.items()[j],
                k,
                q,
            ));
        } else {
            let (rest, part, k) = choose|
                rest: Seq<crate::sexp::Sexp>,
                part: crate::sexp::Sexp,
                k: int,
            | #[trigger]
                part_pin_lies_at(
                    place,
                    parent->0,
                    libraries,
                    unit,
                    at,
                    (depth - 1) as nat,
                    rest,
                    part,
                    k,
                    q,
                );
            let name = definition.first_text("extends"@)->0;
            crate::placing::last_library_symbol_counts(libraries, name);
            let i = choose|i: int| #[trigger]
                crate::placing::is_meant(libraries, name, i) && libraries[i] == parent->0;
            crate::placing::lines_grow(libraries, definition, rest, i);
            assert(part_pin_lies_at(
                place,
                definition,
                libraries,
                unit,
                at,
                depth,
                seq![definition] + rest,
                part,
                k,
                q,
            ));
        }
    }
    if exists|line: Seq<crate::sexp::Sexp>, part: crate::sexp::Sexp, k: int| #[trigger]
        part_pin_lies_at(place, definition, libraries, unit, at, depth, line, part, k, q) {
        let (line, part, k) = choose|
            line: Seq<crate::sexp::Sexp>,
            part: crate::sexp::Sexp,
            k: int,
        | #[trigger]
            part_pin_lies_at(place, definition, libraries, unit, at, depth, line, part, k, q);
        if line.len() > 1 {
            crate::placing::lines_shrink(libraries, line);
            let name = definition.first_text("extends"@)->0;
            let i = choose|i: int| #[trigger]
                crate::placing::is_meant(libraries, name, i) && libraries[i] == line[1];
            crate::placing::meant_symbol_is_found(libraries, name, i);
            assert(part_pin_lies_at(
                place,
                parent->0,
                libraries,
                unit,
                at,
                (depth - 1) as nat,
                line.skip(1),
                part,
                k,
                q,
            ));
        } else {
            assert(line.last() == definition);
            if part == definition {
                assert(pin_lies_at(place, definition, at, k, q));
            } else {
                let j = choose|j: int| #[trigger]
                    crate::placing::is_unit(line.last(), j, unit) && line.last().items()[j] == part;
                assert(unit_pin_lies_at(place, definition, unit, at, j, k, q));
            }
        }
    }
}

/// A pin of a symbol comes to lie at `q`.
pub open spec fn symbol_holds<F: Fn(Point, Placement) -> Point>(
    place: F,
    item: crate::sexp::Sexp,
    libraries: Seq<crate::sexp::Sexp>,
    i: int,
    origin: Point,
    line: Seq<crate::sexp::Sexp>,
    part: crate::sexp::Sexp,
    k: int,
    q: Point,
) -> bool {
    &&& item.part_text(0) == Some("symbol"@)
    &&& crate::placing::is_instance(item, libraries, i, origin)
    &&& crate::placing::is_part(
        libraries[i],
        libraries,
        crate::attachment::unit_of(item),
        libraries.len(),
        line,
        part,
    )
    &&& pin_lies_at(place, part, crate::attachment::placement_of(item, origin), k, q)
}

/// A pin of a sheet lies at `q`.
pub open spec fn sheet_holds(item: crate::sexp::Sexp, k: int, q: Point) -> bool {
    item.part_text(0) == Some("sheet"@) && crate::placing::is_pin(item, k, q)
}

/// An end of a bus entry lies at `q`: where it stands, or as far from there as its size says.
pub open spec fn entry_holds(item: crate::sexp::Sexp, q: Point) -> bool {
    &&& item.part_text(0) == Some("bus_entry"@)
    &&& item.at_point() matches Some(p) && {
        ||| q == p
        ||| item.first("size"@) matches Some(size) && q == (Point {
            x: p.x.spec_sum(
                match size.part_number(1) {
                    Some(x) => x,
                    None => crate::double::Double::spec_zero(),
                },
            ),
            y: p.y.spec_sum(
                match size.part_number(2) {
                    Some(y) => y,
                    None => crate::double::Double::spec_zero(),
                },
            ),
        })
    }
}

/// A junction, a no-connect marker, a label or a flag stands at `q`.
pub open spec fn mark_holds(item: crate::sexp::Sexp, q: Point) -> bool {
    &&& item.at_point() == Some(q)
    &&& {
        ||| item.part_text(0) == Some("junction"@)
        ||| item.part_text(0) == Some("no_connect"@)
        ||| item.part_text(0) == Some("label"@)
        ||| item.part_text(0) == Some("global_label"@)
        ||| item.part_text(0) == Some("hierarchical_label"@)
        ||| item.part_text(0) == Some("netclass_flag"@)
    }
}

/// An item holds wires at `q`.
pub open spec fn holds_wires<F: Fn(Point, Placement) -> Point>(
    place: F,
    item: crate::sexp::Sexp,
    libraries: Seq<crate::sexp::Sexp>,
    q: Point,
) -> bool {
    ||| exists|
        i: int,
        origin: Point,
        line: Seq<crate::sexp::Sexp>,
        part: crate::sexp::Sexp,
        k: int,
    | #[trigger]
        symbol_holds(place, item, libraries, i, origin, line, part, k, q)
    ||| exists|k: int| #[trigger] sheet_holds(item, k, q)
    ||| entry_holds(item, q)
    ||| mark_holds(item, q)
}

proof fn lemma_words()
    ensures
        "symbol"@ != "sheet"@,
        "symbol"@ != "bus_entry"@,
        "sheet"@ != "bus_entry"@,
        "symbol"@ != "junction"@,
        "symbol"@ != "no_connect"@,
        "symbol"@ != "label"@,
        "symbol"@ != "global_label"@,
        "symbol"@ != "hierarchical_label"@,
        "symbol"@ != "netclass_flag"@,
        "sheet"@ != "junction"@,
        "sheet"@ != "no_connect"@,
        "sheet"@ != "label"@,
        "sheet"@ != "global_label"@,
        "sheet"@ != "hierarchical_label"@,
        "sheet"@ != "netclass_flag"@,
        "bus_entry"@ != "junction"@,
        "bus_entry"@ != "no_connect"@,
        "bus_entry"@ != "label"@,
        "bus_entry"@ != "global_label"@,
        "bus_entry"@ != "hierarchical_label"@,
        "bus_entry"@ != "netclass_flag"@,
{
    reveal_strlit("symbol");
    reveal_strlit("sheet");
    reveal_strlit("bus_entry");
    reveal_strlit("junction");
    reveal_strlit("no_connect");
    reveal_strlit("label");
    reveal_strlit("global_label");
    reveal_strlit("hierarchical_label");
    reveal_strlit("netclass_flag");
    assert("symbol"@[0] == 's' && "symbol"@.len() == 6);
    assert("sheet"@[0] == 's' && "sheet"@.len() == 5);
    assert("bus_entry"@[0] == 'b');
    assert("junction"@[0] == 'j');
    assert("no_connect"@[0] == 'n');
    assert("label"@[0] == 'l');
    assert("global_label"@[0] == 'g');
    assert("hierarchical_label"@[0] == 'h');
    assert("netclass_flag"@[0] == 'n');
}

/// The points of an item that take wires with them are those at which it holds wires.
pub proof fn items_move_what_they_hold<F: Fn(Point, Placement) -> Point>(
    place: F,
    item: crate::sexp::Sexp,
    libraries: Seq<crate::sexp::Sexp>,
    q: Point,
)
    ensures
        crate::attachment::item_points(place, item, libraries).contains(q) <==> holds_wires(
            place,
            item,
            libraries,
            q,
        ),
{
    let points = crate::attachment::item_points(place, item, libraries);
    lemma_words();
    if item.part_text(0) == Some("symbol"@) {
        match (item.first_text("lib_id"@), item.at_point()) {
            (Some(name), Some(origin)) => {
                crate::placing::last_library_symbol_counts(libraries, name);
                let unit = crate::attachment::unit_of(item);
                let at = crate::attachment::placement_of(item, origin);
                match crate::attachment::library_from(libraries, name, libraries.len()) {
                    Some(definition) => {
                        let depth = libraries.len();
                        let i = choose|i: int| #[trigger]
                            crate::placing::is_meant(libraries, name, i) && libraries[i]
                                == definition;
                        every_pin_of_a_symbol_holds_wires(
                            place,
                            definition,
                            libraries,
                            unit,
                            at,
                            depth,
                            q,
                        );
                        if points.contains(q) {
                            let (line, part, k) = choose|
                                line: Seq<crate::sexp::Sexp>,
                                part: crate::sexp::Sexp,
                                k: int,
                            | #[trigger]
                                part_pin_lies_at(
                                    place,
                                    definition,
                                    libraries,
                                    unit,
                                    at,
                                    depth,
                                    line,
                                    part,
                                    k,
                                    q,
                                );
                            assert(symbol_holds(
                                place,
                                item,
                                libraries,
                                i,
                                origin,
                                line,
                                part,
                                k,
                                q,
                            ));
                        }
                        if holds_wires(place, item, libraries, q) {
                            let (j, o, line, part, k) = choose|
                                j: int,
                                o: Point,
                                line: Seq<crate::sexp::Sexp>,
                                part: crate::sexp::Sexp,
                                k: int,
                            | #[trigger]
                                symbol_holds(place, item, libraries, j, o, line, part, k, q);
                            crate::placing::meant_symbol_is_found(libraries, name, j);
                            assert(part_pin_lies_at(
                                place,
                                definition,
                                libraries,
                                unit,
                                at,
                                depth,
                                line,
                                part,
                                k,
                                q,
                            ));
                        }
                    },
                    None => {
                        assert forall|
                            j: int,
                            o: Point,
                            line: Seq<crate::sexp::Sexp>,
                            part: crate::sexp::Sexp,
                            k: int,
                        | !#[trigger] symbol_holds(place, item, libraries, j, o, line, part, k, q) by {
                            if symbol_holds(place, item, libraries, j, o, line, part, k, q) {
                                assert(libraries[j].part_text(1) == Some(name));
                            }
                        }
                    },
                }
            },
            _ => {},
        }
    } else if item.part_text(0) == Some("sheet"@) {
        crate::warnings::positions_are_those_of_the_items(item, "pin"@, q);
        if points.contains(q) {
            let k = choose|k: int| #[trigger] crate::warnings::stands_at(item, k, "pin"@, q);
            assert(sheet_holds(item, k, q));
        }
        if exists|k: int| #[trigger] sheet_holds(item, k, q) {
            let k = choose|k: int| #[trigger] sheet_holds(item, k, q);
            assert(crate::warnings::stands_at(item, k, "pin"@, q));
        }
    } else if item.part_text(0) == Some("bus_entry"@) {
        if let Some(p) = item.at_point() {
            assert(points[0] == p);
            if let Some(size) = item.first("size"@) {
                assert(points.len() == 2);
                assert(points[1] == (crate::connectivity::entry_ends(item)->0).1);
            } else {
                assert(points.len() == 1);
            }
        }
    } else if crate::attachment::is_point_like(item) {
        if let Some(p) = item.at_point() {
            assert(points[0] == p && points.len() == 1);
        }
    }
}

/// The `i`-th part of a document is selected and holds wires at `q`.
pub open spec fn takes_along<F: Fn(Point, Placement) -> Point>(
    place: F,
    root: crate::sexp::Sexp,
    selected: Seq<Seq<char>>,
    i: int,
    q: Point,
) -> bool {
    &&& 1 <= i < root.items().len()
    &&& root.items()[i].first_text("uuid"@) matches Some(uuid) && selected.contains(uuid)
    &&& holds_wires(place, root.items()[i], crate::attachment::libraries_of(root), q)
}

proof fn lemma_selected<F: Fn(Point, Placement) -> Point>(
    place: F,
    root: crate::sexp::Sexp,
    selected: Seq<Seq<char>>,
    n: nat,
    q: Point,
)
    requires
        n <= root.items().len(),
    ensures
        crate::attachment::selected_points(place, root, selected, n).contains(q) <==> exists|i: int|
            i < n && #[trigger] takes_along(place, root, selected, i, q),
    decreases n,
{
    if n > 1 {
        lemma_selected(place, root, selected, (n - 1) as nat, q);
        let libraries = crate::attachment::libraries_of(root);
        let before = crate::attachment::selected_points(place, root, selected, (n - 1) as nat);
        let item = root.items()[n - 1];
        let own = crate::attachment::item_points(place, item, libraries);
        items_move_what_they_hold(place, item, libraries, q);
        crate::sequences::either_holds(before, own, q);
        if before.contains(q) {
            let i = choose|i: int|
                i < n - 1 && #[trigger] takes_along(place, root, selected, i, q);
            assert(takes_along(place, root, selected, i, q));
        }
        if crate::attachment::selected_points(place, root, selected, n).contains(q)
            && !before.contains(q) {
            assert(takes_along(place, root, selected, n - 1, q));
        }
    }
}

/// A point is near one at which a selected item holds wires.
pub open spec fn is_taken<N: Fn(Point, Point) -> bool, F: Fn(Point, Placement) -> Point>(
    near: N,
    place: F,
    root: crate::sexp::Sexp,
    selected: Seq<Seq<char>>,
    p: Point,
) -> bool {
    exists|i: int, q: Point| #[trigger]
        takes_along(place, root, selected, i, q) && crate::connectivity::says(near, p, q)
}

proof fn lemma_taken<N: Fn(Point, Point) -> bool, F: Fn(Point, Placement) -> Point>(
    near: N,
    place: F,
    root: crate::sexp::Sexp,
    selected: Seq<Seq<char>>,
    p: Point,
)
    ensures
        crate::connectivity::any_near(
            near,
            p,
            crate::attachment::selected_points(place, root, selected, root.items().len()),
        ) == is_taken(near, place, root, selected, p),
{
    let n = root.items().len();
    let points = crate::attachment::selected_points(place, root, selected, n);
    if crate::connectivity::any_near(near, p, points) {
        let j = choose|j: int|
            0 <= j < points.len() && crate::connectivity::says(near, p, #[trigger] points[j]);
        assert(points.contains(points[j]));
        lemma_selected(place, root, selected, n, points[j]);
        let i = choose|i: int| i < n && #[trigger] takes_along(place, root, selected, i, points[j]);
        assert(takes_along(place, root, selected, i, points[j]));
    }
    if is_taken(near, place, root, selected, p) {
        let (i, q) = choose|i: int, q: Point| #[trigger]
            takes_along(place, root, selected, i, q) && crate::connectivity::says(near, p, q);
        lemma_selected(place, root, selected, n, q);
        let j = choose|j: int| 0 <= j < points.len() && points[j] == q;
        assert(crate::connectivity::says(near, p, points[j]));
    }
}

/// `m` is how the wire at `k` moves: it is not selected itself, it has an identifier, and of its ends
/// those move that are near a point at which a selected item holds wires, at least one of them.
pub open spec fn is_stretched<N: Fn(Point, Point) -> bool, F: Fn(Point, Placement) -> Point>(
    near: N,
    place: F,
    root: crate::sexp::Sexp,
    wires: Seq<WireItem>,
    selected: Seq<Seq<char>>,
    k: int,
    m: WireMove,
) -> bool {
    &&& 0 <= k < wires.len()
    &&& wires[k].uuid matches Some(uuid) && m.uuid == uuid@
    &&& !selected.contains(m.uuid)
    &&& m.start == wires[k].segment.start
    &&& m.end == wires[k].segment.end
    &&& m.move_start == is_taken(near, place, root, selected, m.start)
    &&& m.move_end == is_taken(near, place, root, selected, m.end)
    &&& m.move_start || m.move_end
}

proof fn lemma_following<N: Fn(Point, Point) -> bool, F: Fn(Point, Placement) -> Point>(
    near: N,
    place: F,
    root: crate::sexp::Sexp,
    wires: Seq<WireItem>,
    selected: Seq<Seq<char>>,
    n: nat,
    m: WireMove,
)
    requires
        n <= wires.len(),
    ensures
        crate::attachment::following(
            near,
            wires,
            selected,
            crate::attachment::selected_points(place, root, selected, root.items().len()),
            n,
        ).contains(m) <==> exists|k: int|
            k < n && #[trigger] is_stretched(near, place, root, wires, selected, k, m),
    decreases n,
{
    if n > 0 {
        lemma_following(near, place, root, wires, selected, (n - 1) as nat, m);
        let points = crate::attachment::selected_points(
            place,
            root,
            selected,
            root.items().len(),
        );
        let before = crate::attachment::following(near, wires, selected, points, (n - 1) as nat);
        let wire = wires[n - 1];
        lemma_taken(near, place, root, selected, wire.segment.start);
        lemma_taken(near, place, root, selected, wire.segment.end);
        if let Some(own) = crate::attachment::follows(near, wire, selected, points) {
            crate::attachment::slots_are_within(before, own.uuid, before.len());
            crate::sequences::inserted_holds(
                before,
                crate::attachment::slot(before, own.uuid, before.len()),
                own,
                m,
            );
            assert(is_stretched(near, place, root, wires, selected, n - 1, own));
        }
        if before.contains(m) {
            let k = choose|k: int|
                k < n - 1 && #[trigger] is_stretched(near, place, root, wires, selected, k, m);
            assert(is_stretched(near, place, root, wires, selected, k, m));
        }
    }
}

/// The wires that move with a selection are those with an end near a point at which a selected item
/// holds wires, and such an end moves.
pub proof fn wires_follow_what_holds_them<
    N: Fn(Point, Point) -> bool,
    F: Fn(Point, Placement) -> Point,
>(
    near: N,
    place: F,
    root: crate::sexp::Sexp,
    wires: Seq<WireItem>,
    selected: Seq<Seq<char>>,
    m: WireMove,
)
    ensures
        crate::attachment::following(
            near,
            wires,
            selected,
            crate::attachment::selected_points(place, root, selected, root.items().len()),
            wires.len(),
        ).contains(m) <==> exists|k: int| #[trigger]
            is_stretched(near, place, root, wires, selected, k, m),
{
    lemma_following(near, place, root, wires, selected, wires.len(), m);
}

/// A wire that is not selected and has an end near a pin of a selected sheet moves, with that end.
pub proof fn sheet_pins_take_wires_along<
    N: Fn(Point, Point) -> bool,
    F: Fn(Point, Placement) -> Point,
>(
    near: N,
    place: F,
    root: crate::sexp::Sexp,
    wires: Seq<WireItem>,
    selected: Seq<Seq<char>>,
    i: int,
    j: int,
    q: Point,
    k: int,
)
    requires
        1 <= i < root.items().len(),
        root.items()[i].part_text(0) == Some("sheet"@),
        root.items()[i].first_text("uuid"@) is Some,
        selected.contains(root.items()[i].first_text("uuid"@)->0),
        0 <= j < root.items()[i].items().len(),
        root.items()[i].items()[j].part_text(0) == Some("pin"@),
        root.items()[i].items()[j].at_point() == Some(q),
        0 <= k < wires.len(),
        wires[k].uuid is Some,
        !selected.contains(wires[k].uuid->0@),
        crate::connectivity::says(near, wires[k].segment.start, q) || crate::connectivity::says(
            near,
            wires[k].segment.end,
            q,
        ),
    ensures
        exists|m: WireMove| #[trigger]
            crate::attachment::following(
                near,
                wires,
                selected,
                crate::attachment::selected_points(place, root, selected, root.items().len()),
                wires.len(),
            ).contains(m) && m.uuid == wires[k].uuid->0@ && m.start == wires[k].segment.start
                && m.end == wires[k].segment.end && (crate::connectivity::says(
                near,
                wires[k].segment.start,
                q,
            ) ==> m.move_start) && (crate::connectivity::says(near, wires[k].segment.end, q)
                ==> m.move_end),
{
    assert(sheet_holds(root.items()[i], j, q));
    assert(takes_along(place, root, selected, i, q));
    let m = WireMove {
        uuid: wires[k].uuid->0@,
        start: wires[k].segment.start,
        end: wires[k].segment.end,
        move_start: is_taken(near, place, root, selected, wires[k].segment.start),
        move_end: is_taken(near, place, root, selected, wires[k].segment.end),
    };
    assert(is_stretched(near, place, root, wires, selected, k, m));
    wires_follow_what_holds_them(near, place, root, wires, selected, m);
}

} // verus!
