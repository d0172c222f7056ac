//! Which wires follow the items that are moved.

use crate::connectivity::bus_entry_ends;
use crate::connectivity::Segment;
use crate::double::Double;
use crate::geometry::Point;
use crate::readers::at_point;
use crate::readers::at_rotation;
use crate::sexp::is_text;
use crate::sexp::Node;
use crate::text::has_name;
use crate::text::str_less;
use vstd::prelude::*;

verus! {

/// Where a symbol stands and how it is turned.
#[derive(Clone, Copy, PartialEq, Eq, Structural, Debug)]
pub struct Placement {
    pub origin: Point,
    pub rotation: Double,
    pub mirror_x: bool,
    pub mirror_y: bool,
}

/// A wire of the document.
pub struct WireItem {
    pub uuid: Option<String>,
    pub segment: Segment,
}

/// A wire of which one end or both move with the selection.
pub struct ConnectedWireMove {
    pub uuid: String,
    pub start: Point,
    pub end: Point,
    pub move_start: bool,
    pub move_end: bool,
}

/// A moved wire as a value.
pub ghost struct WireMove {
    pub uuid: Seq<char>,
    pub start: Point,
    pub end: Point,
    pub move_start: bool,
    pub move_end: bool,
}

impl ConnectedWireMove {
    pub open spec fn model(self) -> WireMove {
        WireMove {
            uuid: self.uuid@,
            start: self.start,
            end: self.end,
            move_start: self.move_start,
            move_end: self.move_end,
        }
    }
}

pub open spec fn moves(v: Seq<ConnectedWireMove>) -> Seq<WireMove> {
    v.map_values(|m: ConnectedWireMove| m.model())
}

/// `f` can be called on anything and always gives the same result.
pub open spec fn is_map<A, B, C, F: Fn(A, B) -> C>(f: F) -> bool {
    &&& forall|a: A, b: B| #[trigger] call_requires(f, (a, b))
    &&& forall|a: A, b: B, p: C, q: C| #[trigger]
        call_ensures(f, (a, b), p) && #[trigger] call_ensures(f, (a, b), q) ==> p == q
}

/// What `f` gives.
pub open spec fn image<A, B, C, F: Fn(A, B) -> C>(f: F, a: A, b: B) -> C {
    choose|p: C| call_ensures(f, (a, b), p)
}

/// How a symbol is placed, as a value.
pub open spec fn placement_of(node: crate::sexp::Sexp, origin: Point) -> Placement {
    let mirror = node.first_text("mirror"@);
    Placement {
        origin,
        rotation: node.at_rotation(),
        mirror_x: mirror == Some("x"@) || mirror == Some("xy"@),
        mirror_y: mirror == Some("y"@) || mirror == Some("xy"@),
    }
}

/// How a symbol is placed.
pub fn symbol_transform(node: &Node, origin: Point) -> (r: Placement)
    ensures
        r == placement_of(node@, origin),
        node.wf() ==> r.rotation.wf() && r.rotation.within(2000) && r.rotation.exponent <= 0,
{
    let mirror = node.find_str("mirror");
    Placement {
        origin,
        rotation: at_rotation(node),
        mirror_x: is_text(mirror, "x") || is_text(mirror, "xy"),
        mirror_y: is_text(mirror, "y") || is_text(mirror, "xy"),
    }
}

/// The last of the first `n` library symbols with the given name.
pub open spec fn library_from(
    symbols: Seq<crate::sexp::Sexp>,
    name: Seq<char>,
    n: nat,
) -> Option<crate::sexp::Sexp>
    decreases n,
{
    if n == 0 {
        None
    } else if symbols[n - 1].part_text(1) == Some(name) {
        Some(symbols[n - 1])
    } else {
        library_from(symbols, name, (n - 1) as nat)
    }
}

/// The library symbols of a document, as a value.
pub open spec fn libraries_of(root: crate::sexp::Sexp) -> Seq<crate::sexp::Sexp> {
    match root.first("lib_symbols"@) {
        Some(libraries) => libraries.tagged("symbol"@),
        None => Seq::empty(),
    }
}

/// The library symbols of a document.
pub fn library_symbols(root: &Node) -> (r: Vec<&Node>)
    ensures
        crate::sexp::ref_sexps(r@) == libraries_of(root@),
        root.wf() ==> forall|i: int| 0 <= i < r@.len() ==> (#[trigger] r@[i]).wf(),
{
    match root.find("lib_symbols") {
        Some(libraries) => libraries.find_all("symbol"),
        None => {
            let r: Vec<&Node> = Vec::new();
            assert(crate::sexp::ref_sexps(r@) =~= Seq::empty());
            r
        },
    }
}

/// The last of the library symbols with the given name.
pub fn find_library<'a>(libraries: &Vec<&'a Node>, name: &str) -> (r: Option<&'a Node>)
    ensures
        match r {
            Some(node) => library_from(
                crate::sexp::ref_sexps(libraries@),
                name@,
                libraries@.len(),
            ) == Some(node@) && exists|i: int|
                0 <= i < libraries@.len() && *libraries@[i] == *node,
            None => library_from(crate::sexp::ref_sexps(libraries@), name@, libraries@.len())
                is None,
        },
{
    let ghost all = crate::sexp::ref_sexps(libraries@);
    let mut n: usize = libraries.len();
    while n > 0
        invariant
            n <= libraries@.len(),
            all == crate::sexp::ref_sexps(libraries@),
            library_from(all, name@, libraries@.len()) == library_from(all, name@, n as nat),
        decreases n,
    {
        assert(all[n - 1] == libraries@[n - 1]@);
        if is_text(libraries[n - 1].get_str(1), name) {
            return Some(libraries[n - 1]);
        }
        n = n - 1;
    }
    None
}

/// The number that a string of digits writes, up to the largest 32-bit one; an optional plus
/// sign may stand before it.
pub open spec fn unsigned(s: Seq<char>) -> Option<nat> {
    let digits = if s.len() > 0 && s[0] == '+' {
        s.skip(1)
    } else {
        s
    };
    if digits.len() == 0 {
        None
    } else {
        match value(digits) {
            Some(n) => if n <= u32::MAX {
                Some(n)
            } else {
                None
            },
            None => None,
        }
    }
}

/// The number that digits write.
pub open spec fn value(digits: Seq<char>) -> Option<nat>
    decreases digits.len(),
{
    if digits.len() == 0 {
        Some(0)
    } else {
        match value(digits.drop_last()) {
            Some(n) => if '0' <= digits.last() <= '9' {
                Some((n * 10 + (digits.last() as int - 48)) as nat)
            } else {
                None
            },
            None => None,
        }
    }
}

proof fn lemma_value_grows(digits: Seq<char>, n: int)
    requires
        0 <= n <= digits.len(),
        value(digits) is Some,
    ensures
        value(digits.take(n)) is Some,
        value(digits.take(n))->0 <= value(digits)->0,
    decreases digits.len() - n,
{
    if n == digits.len() {
        assert(digits.take(n) =~= digits);
    } else {
        lemma_value_grows(digits, n + 1);
        assert(digits.take(n + 1).drop_last() =~= digits.take(n));
    }
}

/// The number that the characters from `from` up to `to` write.
pub fn to_unsigned(chars: &Vec<char>, from: usize, to: usize) -> (r: Option<u32>)
    requires
        from <= to <= chars@.len(),
    ensures
        match r {
            Some(n) => unsigned(chars@.subrange(from as int, to as int)) == Some(n as nat),
            None => unsigned(chars@.subrange(from as int, to as int)) is None,
        },
{
    let ghost s = chars@.subrange(from as int, to as int);
    let start: usize = if from < to && chars[from] == '+' {
        from + 1
    } else {
        from
    };
    let ghost digits = chars@.subrange(start as int, to as int);
    proof {
        if start > from {
            assert(s.skip(1) =~= digits);
        }
    }
    if start == to {
        return None;
    }
    let mut n: u64 = 0;
    let mut i: usize = start;
    assert(digits.take(0).len() == 0);
    while i < to
        invariant
            from <= start <= i <= to <= chars@.len(),
            digits == chars@.subrange(start as int, to as int),
            s == chars@.subrange(from as int, to as int),
            start < to,
            unsigned(s) == (match value(digits) {
                Some(n) => if n <= u32::MAX {
                    Some(n)
                } else {
                    None
                },
                None => None,
            }),
            value(digits.take(i - start)) == Some(n as nat),
            n <= u32::MAX,
        decreases to - i,
    {
        let c = chars[i];
        proof {
            assert(digits.take(i - start + 1).drop_last() =~= digits.take(i - start));
            if value(digits) is Some {
                lemma_value_grows(digits, i - start + 1);
            }
        }
        if c < '0' || c > '9' {
            return None;
        }
        n = n * 10 + (c as u8 - 48) as u64;
        if n > u32::MAX as u64 {
            return None;
        }
        i = i + 1;
    }
    assert(digits.take(to - start) =~= digits);
    Some(n as u32)
}

/// Where the last underscore before `to` stands.
pub open spec fn last_underscore(s: Seq<char>, to: nat) -> Option<int>
    decreases to,
{
    if to == 0 {
        None
    } else if s[to - 1] == '_' {
        Some(to - 1)
    } else {
        last_underscore(s, (to - 1) as nat)
    }
}

/// Whether a part of a library symbol belongs to a unit: its name ends in `_unit_style`, the
/// unit is zero or the one asked for, and the style is zero or one.
pub open spec fn unit_matches(name: Seq<char>, unit: nat) -> bool {
    match last_underscore(name, name.len()) {
        None => false,
        Some(last) => {
            let style = unsigned(name.skip(last + 1));
            let start = match last_underscore(name, last as nat) {
                Some(before) => before + 1,
                None => 0,
            };
            let own = unsigned(name.subrange(start, last));
            (style == Some(0nat) || style == Some(1nat)) && (own == Some(0nat) || own == Some(
                unit,
            ))
        },
    }
}

fn find_underscore(chars: &Vec<char>, to: usize) -> (r: Option<usize>)
    requires
        to <= chars@.len(),
    ensures
        match r {
            Some(i) => last_underscore(chars@, to as nat) == Some(i as int) && i < to,
            None => last_underscore(chars@, to as nat) is None,
        },
{
    let mut n: usize = to;
    while n > 0
        invariant
            n <= to <= chars@.len(),
            last_underscore(chars@, to as nat) == last_underscore(chars@, n as nat),
        decreases n,
    {
        if chars[n - 1] == '_' {
            return Some(n - 1);
        }
        n = n - 1;
    }
    None
}

/// Whether a part of a library symbol belongs to a unit.
pub fn symbol_unit_matches(name: &str, unit: u32) -> (r: bool)
    ensures
        r == unit_matches(name@, unit as nat),
{
    let chars = crate::text::chars_of(name);
    let len: usize = chars.len();
    match find_underscore(&chars, len) {
        None => false,
        Some(last) => {
            let style = to_unsigned(&chars, last + 1, len);
            let start: usize = match find_underscore(&chars, last) {
                Some(before) => before + 1,
                None => 0,
            };
            let own = to_unsigned(&chars, start, last);
            assert(chars@.subrange(last + 1, len as int) =~= name@.skip(last + 1));
            let known: bool = match style {
                Some(style) => style <= 1,
                None => false,
            };
            let fits: bool = match own {
                Some(own) => own == 0 || own == unit,
                None => false,
            };
            known && fits
        },
    }
}

/// `acc` followed by the placed positions of the first `n` pins.
pub open spec fn pins_upto<F: Fn(Point, Placement) -> Point>(
    place: F,
    pins: Seq<crate::sexp::Sexp>,
    at: Placement,
    n: nat,
) -> Seq<Point>
    decreases n,
{
    if n == 0 {
        Seq::empty()
    } else {
        let before = pins_upto(place, pins, at, (n - 1) as nat);
        match pins[n - 1].at_point() {
            Some(point) => before.push(image(place, point, at)),
            None => before,
        }
    }
}

/// The placed positions of all pins directly in a part of a symbol.
pub open spec fn own_pins<F: Fn(Point, Placement) -> Point>(
    place: F,
    part: crate::sexp::Sexp,
    at: Placement,
) -> Seq<Point> {
    let pins = part.tagged("pin"@);
    pins_upto(place, pins, at, pins.len())
}

/// The placed pins of those of the first `n` units that are drawn.
pub open spec fn unit_pins<F: Fn(Point, Placement) -> Point>(
    place: F,
    units: Seq<crate::sexp::Sexp>,
    unit: nat,
    at: Placement,
    n: nat,
) -> Seq<Point>
    decreases n,
{
    if n == 0 {
        Seq::empty()
    } else {
        let before = unit_pins(place, units, unit, at, (n - 1) as nat);
        let name = match units[n - 1].part_text(1) {
            Some(name) => name,
            None => ""@,
        };
        if unit_matches(name, unit) {
            before + own_pins(place, units[n - 1], at)
        } else {
            before
        }
    }
}

/// Where wires can be attached to a placed symbol: the pins of the symbols that it extends, at
/// most `depth` of them, then its own, then those of its units.
pub open spec fn connection_points<F: Fn(Point, Placement) -> Point>(
    place: F,
    definition: crate::sexp::Sexp,
    libraries: Seq<crate::sexp::Sexp>,
    unit: nat,
    at: Placement,
    depth: nat,
) -> Seq<Point>
    decreases depth,
{
    let inherited = if depth == 0 {
        Seq::empty()
    } else {
        match definition.first_text("extends"@) {
            Some(parent) => match library_from(libraries, parent, libraries.len()) {
                Some(parent) => connection_points(
                    place,
                    parent,
                    libraries,
                    unit,
                    at,
                    (depth - 1) as nat,
                ),
                None => Seq::empty(),
            },
            None => Seq::empty(),
        }
    };
    let units = definition.tagged("symbol"@);
    inherited + own_pins(place, definition, at) + unit_pins(place, units, unit, at, units.len())
}

fn call<F: Fn(Point, Placement) -> Point + Copy>(place: F, point: Point, at: Placement) -> (r:
    Point)
    requires
        is_map(place),
    ensures
        r == image(place, point, at),
{
    place(point, at)
}

fn collect_pins<F: Fn(Point, Placement) -> Point + Copy>(
    place: F,
    part: &Node,
    at: Placement,
    out: &mut Vec<Point>,
)
    requires
        is_map(place),
    ensures
        final(out)@ == old(out)@ + own_pins(place, part@, at),
{
    let pins = part.find_all("pin");
    let ghost all = part@.tagged("pin"@);
    let ghost before = out@;
    let mut i: usize = 0;
    assert(before + Seq::<Point>::empty() =~= before);
    while i < pins.len()
        invariant
            i <= pins@.len(),
            is_map(place),
            crate::sexp::ref_sexps(pins@) == all,
            out@ =~= before + pins_upto(place, all, at, i as nat),
        decreases pins@.len() - i,
    {
        assert(all[i as int] == pins@[i as int]@);
        match at_point(pins[i]) {
            Some(point) => {
                out.push(call(place, point, at));
            },
            None => {},
        }
        i = i + 1;
    }
}

/// Collects where wires can be attached to a placed symbol.
fn collect_symbol_connection_points<F: Fn(Point, Placement) -> Point + Copy>(
    place: F,
    definition: &Node,
    libraries: &Vec<&Node>,
    unit: u32,
    at: Placement,
    depth: usize,
    out: &mut Vec<Point>,
)
    requires
        is_map(place),
    ensures
        final(out)@ == old(out)@ + connection_points(
            place,
            definition@,
            crate::sexp::ref_sexps(libraries@),
            unit as nat,
            at,
            depth as nat,
        ),
    decreases depth,
{
    let ghost before = out@;
    let ghost known = crate::sexp::ref_sexps(libraries@);
    if depth > 0 {
        match definition.find_str("extends") {
            Some(parent) => match find_library(libraries, parent) {
                Some(parent) => {
                    collect_symbol_connection_points(
                        place,
                        parent,
                        libraries,
                        unit,
                        at,
                        depth - 1,
                        out,
                    );
                },
                None => {},
            },
            None => {},
        }
    }
    let ghost inherited = out@;
    collect_pins(place, definition, at, out);
    let ghost own = out@;
    let units = definition.find_all("symbol");
    let ghost all = definition@.tagged("symbol"@);
    let mut i: usize = 0;
    assert(own + Seq::<Point>::empty() =~= own);
    while i < units.len()
        invariant
            i <= units@.len(),
            is_map(place),
            crate::sexp::ref_sexps(units@) == all,
            out@ =~= own + unit_pins(place, all, unit as nat, at, i as nat),
        decreases units@.len() - i,
    {
        assert(all[i as int] == units@[i as int]@);
        let name: &str = match units[i].get_str(1) {
            Some(name) => name,
            None => "",
        };
        if symbol_unit_matches(name, unit) {
            collect_pins(place, units[i], at, out);
        }
        i = i + 1;
    }
    assert(out@ =~= before + connection_points(
        place,
        definition@,
        known,
        unit as nat,
        at,
        depth as nat,
    ));
}

/// The unit of a placed symbol, the first where none is given.
pub open spec fn unit_of(item: crate::sexp::Sexp) -> nat {
    match item.first_text("unit"@) {
        Some(text) => match unsigned(text) {
            Some(unit) => unit,
            None => 1,
        },
        None => 1,
    }
}

/// The unit of a placed symbol.
pub fn symbol_unit(item: &Node) -> (r: u32)
    ensures
        r == unit_of(item@),
{
    match item.find_str("unit") {
        Some(text) => {
            let chars = crate::text::chars_of(text);
            let len: usize = chars.len();
            assert(chars@.subrange(0, len as int) =~= text@);
            match to_unsigned(&chars, 0, len) {
                Some(unit) => unit,
                None => 1,
            }
        },
        None => 1,
    }
}

/// An item at whose position wires meet: a junction, a mark that nothing is connected, a label of a
/// net, or a flag that gives a net its class.
pub open spec fn is_point_like(item: crate::sexp::Sexp) -> bool {
    item.is_a("junction"@) || item.is_a("no_connect"@) || item.is_a("label"@) || item.is_a(
        "global_label"@,
    ) || item.is_a("hierarchical_label"@) || item.is_a("netclass_flag"@)
}

/// Where wires can be attached to an item: to the pins of a symbol or a sheet, to both ends of a
/// bus entry, and to the position of what is [point-like](is_point_like). No other item is
/// connected to anything.
pub open spec fn item_points<F: Fn(Point, Placement) -> Point>(
    place: F,
    item: crate::sexp::Sexp,
    libraries: Seq<crate::sexp::Sexp>,
) -> Seq<Point> {
    if item.is_a("symbol"@) {
        match (item.first_text("lib_id"@), item.at_point()) {
            (Some(name), Some(origin)) => match library_from(libraries, name, libraries.len()) {
                Some(definition) => connection_points(
                    place,
                    definition,
                    libraries,
                    unit_of(item),
                    placement_of(item, origin),
                    libraries.len(),
                ),
                None => Seq::empty(),
            },
            _ => Seq::empty(),
        }
    } else if item.is_a("sheet"@) {
        crate::connectivity::positions(item, "pin"@)
    } else if item.is_a("bus_entry"@) {
        match item.at_point() {
            Some(start) => match crate::connectivity::entry_ends(item) {
                Some(ends) => seq![start, ends.1],
                None => seq![start],
            },
            None => Seq::empty(),
        }
    } else if is_point_like(item) {
        match item.at_point() {
            Some(point) => seq![point],
            None => Seq::empty(),
        }
    } else {
        Seq::empty()
    }
}

/// Collects where wires can be attached to an item.
fn collect_item_points<F: Fn(Point, Placement) -> Point + Copy>(
    place: F,
    item: &Node,
    libraries: &Vec<&Node>,
    out: &mut Vec<Point>,
)
    requires
        is_map(place),
        item.wf(),
    ensures
        final(out)@ == old(out)@ + item_points(place, item@, crate::sexp::ref_sexps(libraries@)),
{
    let ghost before = out@;
    let ghost known = crate::sexp::ref_sexps(libraries@);
    assert(before + Seq::<Point>::empty() =~= before);
    if item.is_a("symbol") {
        match (item.find_str("lib_id"), at_point(item)) {
            (Some(name), Some(origin)) => {
                match find_library(libraries, name) {
                    Some(definition) => {
                        collect_symbol_connection_points(
                            place,
                            definition,
                            libraries,
                            symbol_unit(item),
                            symbol_transform(item, origin),
                            libraries.len(),
                            out,
                        );
                    },
                    None => {},
                }
            },
            _ => {},
        }
    } else if item.is_a("sheet") {
        let mut pins = crate::connectivity::positions_of(item, "pin");
        out.append(&mut pins);
    } else if item.is_a("bus_entry") {
        match at_point(item) {
            Some(start) => {
                out.push(start);
                match bus_entry_ends(item) {
                    Some((_, end)) => {
                        out.push(end);
                    },
                    None => {},
                }
            },
            None => {},
        }
        assert(out@ =~= before + item_points(place, item@, known));
    } else if item.is_a("junction") || item.is_a("no_connect") || item.is_a("label")
        || item.is_a("global_label") || item.is_a("hierarchical_label") || item.is_a(
        "netclass_flag",
    ) {
        match at_point(item) {
            Some(point) => {
                out.push(point);
            },
            None => {},
        }
        assert(out@ =~= before + item_points(place, item@, known));
    }
}

/// Where wires can be attached to the selected ones of the parts of a document from the second
/// up to the `n`-th.
pub open spec fn selected_points<F: Fn(Point, Placement) -> Point>(
    place: F,
    root: crate::sexp::Sexp,
    selected: Seq<Seq<char>>,
    n: nat,
) -> Seq<Point>
    decreases n,
{
    if n <= 1 {
        Seq::empty()
    } else {
        let before = selected_points(place, root, selected, (n - 1) as nat);
        let item = root.items()[n - 1];
        match item.first_text("uuid"@) {
            Some(uuid) => if selected.contains(uuid) {
                before + item_points(place, item, libraries_of(root))
            } else {
                before
            },
            None => before,
        }
    }
}

/// Whether, and how, a wire follows the points that move.
pub open spec fn follows<N: Fn(Point, Point) -> bool>(
    near: N,
    wire: WireItem,
    selected: Seq<Seq<char>>,
    points: Seq<Point>,
) -> Option<WireMove> {
    match wire.uuid {
        None => None,
        Some(uuid) => {
            let move_start = crate::connectivity::any_near(near, wire.segment.start, points);
            let move_end = crate::connectivity::any_near(near, wire.segment.end, points);
            if selected.contains(uuid@) || !(move_start || move_end) {
                None
            } else {
                Some(
                    WireMove {
                        uuid: uuid@,
                        start: wire.segment.start,
                        end: wire.segment.end,
                        move_start,
                        move_end,
                    },
                )
            }
        },
    }
}

/// Where a wire goes among wires sorted by identifier: after those that do not come after it.
pub open spec fn slot(sorted: Seq<WireMove>, uuid: Seq<char>, n: nat) -> int
    decreases n,
{
    if n == 0 {
        0
    } else if crate::text::lex_less(uuid, sorted[n - 1].uuid) {
        slot(sorted, uuid, (n - 1) as nat)
    } else {
        n as int
    }
}

/// The wires among the first `n` that follow, sorted by identifier, equal ones in their order.
pub open spec fn following<N: Fn(Point, Point) -> bool>(
    near: N,
    wires: Seq<WireItem>,
    selected: Seq<Seq<char>>,
    points: Seq<Point>,
    n: nat,
) -> Seq<WireMove>
    decreases n,
{
    if n == 0 {
        Seq::empty()
    } else {
        let before = following(near, wires, selected, points, (n - 1) as nat);
        match follows(near, wires[n - 1], selected, points) {
            Some(wire) => before.insert(slot(before, wire.uuid, before.len()), wire),
            None => before,
        }
    }
}

/// Finds the wires whose ends are electrically attached to the selected items. A wire that is
/// selected itself is not among them: it moves as a whole.
pub fn connected_wire_moves<
    N: Fn(Point, Point) -> bool + Copy,
    F: Fn(Point, Placement) -> Point + Copy,
>(root: &Node, wires: &Vec<WireItem>, selected: &Vec<String>, near: N, place: F) -> (r: Vec<
    ConnectedWireMove,
>)
    requires
        root.wf(),
        crate::connectivity::is_test(near),
        is_map(place),
    ensures
        moves(r@) == following(
            near,
            wires@,
            crate::text::views(selected@),
            selected_points(place, root@, crate::text::views(selected@), root@.items().len()),
            wires@.len(),
        ),
{
    let libraries = library_symbols(root);
    let ghost chosen = crate::text::views(selected@);
    let total: usize = root.count();
    let mut points: Vec<Point> = Vec::new();
    let mut i: usize = 1;
    while i < total
        invariant
            1 <= i,
            total <= 1 ==> i == 1,
            i <= total || total <= 1,
            total == root@.items().len(),
            root.wf(),
            is_map(place),
            chosen == crate::text::views(selected@),
            crate::sexp::ref_sexps(libraries@) == libraries_of(root@),
            points@ == selected_points(place, root@, chosen, i as nat),
        decreases total - i,
    {
        match root.get(i) {
            Some(item) => match item.find_str("uuid") {
                Some(uuid) => {
                    if has_name(selected, uuid) {
                        collect_item_points(place, item, &libraries, &mut points);
                    }
                },
                None => {},
            },
            None => {},
        }
        i = i + 1;
    }
    assert(points@ == selected_points(place, root@, chosen, total as nat));
    let mut connected: Vec<ConnectedWireMove> = Vec::new();
    let mut k: usize = 0;
    assert(moves(connected@) =~= Seq::empty());
    while k < wires.len()
        invariant
            k <= wires@.len(),
            crate::connectivity::is_test(near),
            chosen == crate::text::views(selected@),
            moves(connected@) == following(near, wires@, chosen, points@, k as nat),
        decreases wires@.len() - k,
    {
        let wire = &wires[k];
        match &wire.uuid {
            Some(uuid) => {
                if !has_name(selected, uuid.as_str()) {
                    let start = wire.segment.start;
                    let end = wire.segment.end;
                    let move_start = crate::connectivity::is_near_any(near, start, &points);
                    let move_end = crate::connectivity::is_near_any(near, end, &points);
                    if move_start || move_end {
                        let ghost before = moves(connected@);
                        let mut n: usize = connected.len();
                        while n > 0 && str_less(uuid.as_str(), connected[n - 1].uuid.as_str())
                            invariant
                                n <= connected@.len(),
                                before == moves(connected@),
                                slot(before, uuid@, before.len()) == slot(
                                    before,
                                    uuid@,
                                    n as nat,
                                ),
                            decreases n,
                        {
                            n = n - 1;
                        }
                        let added = ConnectedWireMove {
                            uuid: uuid.clone(),
                            start,
                            end,
                            move_start,
                            move_end,
                        };
                        let ghost model = added.model();
                        connected.insert(n, added);
                        assert(moves(connected@) =~= before.insert(n as int, model));
                    }
                }
            },
            None => {},
        }
        k = k + 1;
    }
    connected
}

proof fn lemma_slot(sorted: Seq<WireMove>, uuid: Seq<char>, n: nat)
    requires
        n <= sorted.len(),
    ensures
        0 <= slot(sorted, uuid, n) <= n,
        forall|k: int|
            slot(sorted, uuid, n) <= k < n ==> crate::text::lex_less(
                uuid,
                (#[trigger] sorted[k]).uuid,
            ),
        slot(sorted, uuid, n) > 0 ==> !crate::text::lex_less(
            uuid,
            sorted[slot(sorted, uuid, n) - 1].uuid,
        ),
    decreases n,
{
    if n > 0 && crate::text::lex_less(uuid, sorted[n - 1].uuid) {
        lemma_slot(sorted, uuid, (n - 1) as nat);
    }
}

/// Every wire that follows is attached by an end, and none is selected itself.
pub proof fn followers_are_attached<N: Fn(Point, Point) -> bool>(
    near: N,
    wires: Seq<WireItem>,
    selected: Seq<Seq<char>>,
    points: Seq<Point>,
    n: nat,
)
    requires
        n <= wires.len(),
    ensures
        forall|i: int|
            0 <= i < following(near, wires, selected, points, n).len() ==> {
                let wire = #[trigger] following(near, wires, selected, points, n)[i];
                &&& !selected.contains(wire.uuid)
                &&& wire.move_start || wire.move_end
                &&& wire.move_start == crate::connectivity::any_near(near, wire.start, points)
                &&& wire.move_end == crate::connectivity::any_near(near, wire.end, points)
            },
    decreases n,
{
    if n > 0 {
        followers_are_attached(near, wires, selected, points, (n - 1) as nat);
        let before = following(near, wires, selected, points, (n - 1) as nat);
        if let Some(wire) = follows(near, wires[n - 1], selected, points) {
            let at = slot(before, wire.uuid, before.len());
            lemma_slot(before, wire.uuid, before.len());
            let after = before.insert(at, wire);
            assert forall|i: int| 0 <= i < after.len() implies {
                let wire = #[trigger] after[i];
                &&& !selected.contains(wire.uuid)
                &&& wire.move_start || wire.move_end
                &&& wire.move_start == crate::connectivity::any_near(near, wire.start, points)
                &&& wire.move_end == crate::connectivity::any_near(near, wire.end, points)
            } by {
                if i < at {
                    assert(after[i] == before[i]);
                } else if i > at {
                    assert(after[i] == before[i - 1]);
                }
            }
        }
    }
}

/// The wires that follow come out in the order of their identifiers.
pub proof fn followers_are_sorted<N: Fn(Point, Point) -> bool>(
    near: N,
    wires: Seq<WireItem>,
    selected: Seq<Seq<char>>,
    points: Seq<Point>,
    n: nat,
)
    requires
        n <= wires.len(),
    ensures
        forall|i: int, j: int|
            #![trigger following(near, wires, selected, points, n)[i], following(near, wires, selected, points, n)[j]]
            0 <= i < j < following(near, wires, selected, points, n).len()
                ==> !crate::text::lex_less(
                following(near, wires, selected, points, n)[j].uuid,
                following(near, wires, selected, points, n)[i].uuid,
            ),
    decreases n,
{
    if n > 0 {
        followers_are_sorted(near, wires, selected, points, (n - 1) as nat);
        let before = following(near, wires, selected, points, (n - 1) as nat);
        if let Some(wire) = follows(near, wires[n - 1], selected, points) {
            let at = slot(before, wire.uuid, before.len());
            lemma_slot(before, wire.uuid, before.len());
            let after = before.insert(at, wire);
            assert forall|i: int, j: int|
                #![trigger after[i], after[j]]
                0 <= i < j < after.len() implies !crate::text::lex_less(
                after[j].uuid,
                after[i].uuid,
            ) by {
                let a = if i < at {
                    i
                } else {
                    i - 1
                };
                let b = if j < at {
                    j
                } else {
                    j - 1
                };
                if i != at {
                    assert(after[i] == before[a]);
                }
                if j != at {
                    assert(after[j] == before[b]);
                }
                if i == at {
                    assert(crate::text::lex_less(wire.uuid, before[b].uuid));
                    crate::text::lex_less_is_total(wire.uuid, before[b].uuid);
                } else if j == at {
                    let last = before[at - 1].uuid;
                    crate::text::lex_less_is_total(wire.uuid, last);
                    crate::text::lex_less_is_total(wire.uuid, before[a].uuid);
                    if crate::text::lex_less(wire.uuid, before[a].uuid) {
                        if last != wire.uuid {
                            crate::text::lex_less_is_transitive(last, wire.uuid, before[a].uuid);
                        }
                        if a < at - 1 {
                            assert(!crate::text::lex_less(before[at - 1].uuid, before[a].uuid));
                        }
                    }
                }
            }
        }
    }
}

/// The place that a wire is given lies within the wires that are sorted already.
pub proof fn slots_are_within(sorted: Seq<WireMove>, uuid: Seq<char>, n: nat)
    requires
        n <= sorted.len(),
    ensures
        0 <= slot(sorted, uuid, n) <= n,
{
    lemma_slot(sorted, uuid, n);
}

} // verus!
