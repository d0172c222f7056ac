//! When a schematic's connections are reported: what each kind of report says of the schematic, and
//! that nothing of that kind is passed over.

use crate::connectivity::ConnectivityDiagnosticKind;
use crate::connectivity::Connections;
use crate::connectivity::Instance;
use crate::connectivity::Segment;
use crate::geometry::Point;
use vstd::prelude::*;

verus! {

/// The `i`-th part of a list begins with a word and has a position.
pub open spec fn stands_at(root: crate::sexp::Sexp, i: int, tag: Seq<char>, p: Point) -> bool {
    &&& 0 <= i < root.items().len()
    &&& root.items()[i].part_text(0) == Some(tag)
    &&& root.items()[i].at_point() == Some(p)
}

proof fn lemma_positions(items: Seq<crate::sexp::Sexp>, n: nat, p: Point)
    requires
        n <= items.len(),
    ensures
        crate::connectivity::positions_upto(items, n).contains(p) <==> exists|k: int|
            0 <= k < n && (#[trigger] items[k]).at_point() == Some(p),
    decreases n,
{
    if n > 0 {
        lemma_positions(items, (n - 1) as nat, p);
        let before = crate::connectivity::positions_upto(items, (n - 1) as nat);
        if let Some(q) = items[n - 1].at_point() {
            crate::sequences::pushed_holds(before, q, p);
        }
        if before.contains(p) {
            let k = choose|k: int|
                0 <= k < n - 1 && (#[trigger] items[k]).at_point() == Some(p);
            assert(items[k].at_point() == Some(p));
        }
    }
}

/// The positions of the items of a kind are those of all items that begin with its word.
pub proof fn positions_are_those_of_the_items(
    root: crate::sexp::Sexp,
    tag: Seq<char>,
    p: Point,
)
    ensures
        crate::connectivity::positions(root, tag).contains(p) <==> exists|i: int| #[trigger]
            stands_at(root, i, tag, p),
{
    let items = root.tagged(tag);
    lemma_positions(items, items.len(), p);
    if crate::connectivity::positions(root, tag).contains(p) {
        let k = choose|k: int|
            0 <= k < items.len() && (#[trigger] items[k]).at_point() == Some(p);
        let i = crate::sexp::tagged_parts_are_parts(root, tag, k);
        assert(stands_at(root, i, tag, p));
    }
    if exists|i: int| #[trigger] stands_at(root, i, tag, p) {
        let i = choose|i: int| #[trigger] stands_at(root, i, tag, p);
        crate::sexp::tagged_parts_are_found(root, tag, i);
        let k = choose|k: int| 0 <= k < items.len() && items[k] == root.items()[i];
        assert(items[k].at_point() == Some(p));
    }
}

/// `p` lies on a wire.
pub open spec fn on_wire<S: Fn(Point, Segment) -> bool>(
    on: S,
    p: Point,
    wires: Seq<Segment>,
    j: int,
) -> bool {
    0 <= j < wires.len() && crate::connectivity::says(on, p, wires[j])
}

/// `p` is near one of the points.
pub open spec fn near_one<N: Fn(Point, Point) -> bool>(
    near: N,
    p: Point,
    points: Seq<Point>,
    j: int,
) -> bool {
    0 <= j < points.len() && crate::connectivity::says(near, p, points[j])
}

proof fn lemma_marked<S: Fn(Point, Segment) -> bool>(
    on: S,
    markers: Seq<Point>,
    wires: Seq<Segment>,
    n: nat,
    r: crate::connectivity::Report,
)
    requires
        n <= markers.len(),
    ensures
        crate::connectivity::marked_reports(on, markers, wires, n).contains(r) <==> {
            &&& r.kind == ConnectivityDiagnosticKind::ConnectedNoConnect
            &&& r.message == "No-connect marker at "@ + crate::geometry::place_text(r.point)
                + " is attached to a wire"@
            &&& exists|k: int| 0 <= k < n && #[trigger] markers[k] == r.point
            &&& exists|j: int| #[trigger] on_wire(on, r.point, wires, j)
        },
    decreases n,
{
    if n > 0 {
        lemma_marked(on, markers, wires, (n - 1) as nat, r);
        let before = crate::connectivity::marked_reports(on, markers, wires, (n - 1) as nat);
        let p = markers[n - 1];
        if crate::connectivity::any_on(on, p, wires) {
            let own = crate::connectivity::Report {
                kind: ConnectivityDiagnosticKind::ConnectedNoConnect,
                point: p,
                message: "No-connect marker at "@ + crate::geometry::place_text(p)
                    + " is attached to a wire"@,
            };
            crate::sequences::pushed_holds(before, own, r);
            let j = choose|j: int|
                0 <= j < wires.len() && crate::connectivity::says(on, p, #[trigger] wires[j]);
            assert(on_wire(on, p, wires, j));
        } else if exists|j: int| #[trigger] on_wire(on, p, wires, j) {
            let j = choose|j: int| #[trigger] on_wire(on, p, wires, j);
            assert(crate::connectivity::says(on, p, wires[j]));
        }
        assert(markers[n - 1] == p);
    }
}

/// The reference of a symbol names it: it is there, and does not end in a question mark.
pub open spec fn is_named(reference: Seq<char>) -> bool {
    reference.len() > 0 && reference.last() != '?'
}

/// The symbol at `k` has the reference of the symbol at `j` before it, the last before it that has.
pub open spec fn repeats(instances: Seq<Instance>, j: int, k: int) -> bool {
    &&& 0 <= j < k < instances.len()
    &&& is_named(instances[k].reference@)
    &&& instances[j].reference@ == instances[k].reference@
    &&& forall|m: int|
        j < m < k ==> (#[trigger] instances[m]).reference@ != instances[k].reference@
}

/// What is said of a reference that a symbol has again.
pub open spec fn repeat_report(instances: Seq<Instance>, j: int, k: int) ->
    crate::connectivity::Report {
    crate::connectivity::Report {
        kind: ConnectivityDiagnosticKind::DuplicateReference,
        point: instances[k].point,
        message: "Duplicate reference "@ + instances[k].reference@ + " at "@
            + crate::geometry::place_text(instances[k].point) + "; first at "@
            + crate::geometry::place_text(instances[j].point),
    }
}

proof fn lemma_named(reference: Seq<char>)
    ensures
        crate::connectivity::annotated(reference) == is_named(reference),
{
    reveal_strlit("?");
    if reference.len() > 0 {
        assert(reference.subrange(reference.len() - 1, reference.len() as int) =~= seq![
            reference.last(),
        ]);
        assert(seq![reference.last()][0] == reference.last());
        assert("?"@[0] == '?');
        if reference.last() == '?' {
            assert(seq![reference.last()] =~= "?"@);
        }
    }
}

proof fn lemma_earlier(instances: Seq<Instance>, k: int, n: nat)
    requires
        0 <= k < instances.len(),
        n <= k,
        forall|m: int|
            n <= m < k ==> (#[trigger] instances[m]).reference@ != instances[k].reference@,
    ensures
        match crate::connectivity::earlier(instances, instances[k].reference@, n) {
            Some(p) => exists|j: int| #[trigger] repeats(instances, j, k) && instances[j].point == p,
            None => forall|j: int| !#[trigger] repeats(instances, j, k),
        },
    decreases n,
{
    let name = instances[k].reference@;
    lemma_named(name);
    if n > 0 {
        if instances[n - 1].reference@ == name && crate::connectivity::annotated(name) {
            assert(repeats(instances, n - 1, k));
        } else if is_named(name) {
            lemma_earlier(instances, k, (n - 1) as nat);
        } else {
            lemma_unnamed(instances, name, n);
        }
    }
}

proof fn lemma_unnamed(instances: Seq<Instance>, name: Seq<char>, n: nat)
    requires
        !crate::connectivity::annotated(name),
    ensures
        crate::connectivity::earlier(instances, name, n) is None,
    decreases n,
{
    if n > 0 {
        lemma_unnamed(instances, name, (n - 1) as nat);
    }
}

proof fn lemma_references(instances: Seq<Instance>, n: nat, r: crate::connectivity::Report)
    requires
        n <= instances.len(),
    ensures
        crate::connectivity::reference_reports(instances, n).contains(r) <==> exists|j: int, k: int|
            k < n && #[trigger] repeats(instances, j, k) && r == repeat_report(instances, j, k),
    decreases n,
{
    if n > 0 {
        lemma_references(instances, (n - 1) as nat, r);
        let before = crate::connectivity::reference_reports(instances, (n - 1) as nat);
        lemma_earlier(instances, n - 1, (n - 1) as nat);
        match crate::connectivity::earlier(
            instances,
            instances[n - 1].reference@,
            (n - 1) as nat,
        ) {
            Some(p) => {
                let i = choose|i: int| #[trigger]
                    repeats(instances, i, n - 1) && instances[i].point == p;
                crate::sequences::pushed_holds(before, repeat_report(instances, i, n - 1), r);
                if exists|j: int, k: int|
                    k < n && #[trigger] repeats(instances, j, k) && r == repeat_report(
                        instances,
                        j,
                        k,
                    ) {
                    let (j, k) = choose|j: int, k: int|
                        k < n && #[trigger] repeats(instances, j, k) && r == repeat_report(
                            instances,
                            j,
                            k,
                        );
                    if k == n - 1 {
                        if i < j {
                            assert(instances[j].reference@ == instances[k].reference@);
                        } else if j < i {
                            assert(instances[i].reference@ == instances[k].reference@);
                        }
                        assert(i == j);
                    } else {
                        assert(k < n - 1);
                    }
                }
            },
            None => {
                if exists|j: int, k: int|
                    k < n && #[trigger] repeats(instances, j, k) && r == repeat_report(
                        instances,
                        j,
                        k,
                    ) {
                    let (j, k) = choose|j: int, k: int|
                        k < n && #[trigger] repeats(instances, j, k) && r == repeat_report(
                            instances,
                            j,
                            k,
                        );
                    assert(k < n - 1);
                }
            },
        }
    }
}

/// `p` is an end of the wire at `k`.
pub open spec fn ends_wire(wires: Seq<Segment>, k: int, p: Point) -> bool {
    0 <= k < wires.len() && (p == wires[k].start || p == wires[k].end)
}

/// No wire but the one at `k` goes through `p`.
pub open spec fn alone<S: Fn(Point, Segment) -> bool>(
    on: S,
    p: Point,
    wires: Seq<Segment>,
    k: int,
) -> bool {
    forall|j: int|
        0 <= j < wires.len() && j != k ==> !crate::connectivity::says(on, p, #[trigger] wires[j])
}

/// No point of the points is near `p`.
pub open spec fn clear_of<N: Fn(Point, Point) -> bool>(
    near: N,
    p: Point,
    points: Seq<Point>,
) -> bool {
    forall|j: int| !#[trigger] near_one(near, p, points, j)
}

/// No item of the kind is near `p`.
pub open spec fn clear_of_items<N: Fn(Point, Point) -> bool>(
    near: N,
    p: Point,
    root: crate::sexp::Sexp,
    tag: Seq<char>,
) -> bool {
    forall|i: int, q: Point|
        #[trigger] stands_at(root, i, tag, q) ==> !crate::connectivity::says(near, p, q)
}

/// No pin of a placed symbol is near `p`.
pub open spec fn clear_of_pins<N: Fn(Point, Point) -> bool>(
    near: N,
    p: Point,
    instances: Seq<Instance>,
) -> bool {
    forall|i: int, j: int|
        0 <= i < instances.len() ==> !#[trigger] near_one(near, p, instances[i].pins@, j)
}

/// Nothing holds the end `p` of the wire at `k`: no label, junction, no-connect marker or pin is
/// near it, and no other wire goes through it.
pub open spec fn is_free<N: Fn(Point, Point) -> bool, S: Fn(Point, Segment) -> bool>(
    near: N,
    on: S,
    root: crate::sexp::Sexp,
    c: Connections,
    k: int,
    p: Point,
) -> bool {
    &&& clear_of(near, p, c.labels@)
    &&& clear_of_items(near, p, root, "junction"@)
    &&& clear_of_items(near, p, root, "no_connect"@)
    &&& clear_of_pins(near, p, c.instances@)
    &&& alone(on, p, c.wires@, k)
}

proof fn lemma_anchors(c: Connections, root: crate::sexp::Sexp, n: nat, q: Point)
    requires
        n <= c.instances@.len(),
    ensures
        crate::connectivity::anchors_upto(c, root, n).contains(q) <==> c.labels@.contains(q) || (
        exists|i: int| #[trigger] stands_at(root, i, "junction"@, q)) || (exists|i: int| #[trigger]
            stands_at(root, i, "no_connect"@, q)) || (exists|i: int|
            0 <= i < n && (#[trigger] c.instances@[i]).pins@.contains(q)),
    decreases n,
{
    if n == 0 {
        let junctions = crate::connectivity::positions(root, "junction"@);
        let markers = crate::connectivity::positions(root, "no_connect"@);
        crate::sequences::either_holds(c.labels@ + junctions, markers, q);
        crate::sequences::either_holds(c.labels@, junctions, q);
        positions_are_those_of_the_items(root, "junction"@, q);
        positions_are_those_of_the_items(root, "no_connect"@, q);
    } else {
        lemma_anchors(c, root, (n - 1) as nat, q);
        let before = crate::connectivity::anchors_upto(c, root, (n - 1) as nat);
        crate::sequences::either_holds(before, c.instances@[n - 1].pins@, q);
        if exists|i: int| 0 <= i < n - 1 && (#[trigger] c.instances@[i]).pins@.contains(q) {
            let i = choose|i: int|
                0 <= i < n - 1 && (#[trigger] c.instances@[i]).pins@.contains(q);
            assert(c.instances@[i].pins@.contains(q));
        }
    }
}

proof fn lemma_free<N: Fn(Point, Point) -> bool, S: Fn(Point, Segment) -> bool>(
    near: N,
    on: S,
    root: crate::sexp::Sexp,
    c: Connections,
    k: int,
)
    requires
        0 <= k < 2 * c.wires@.len(),
    ensures
        crate::connectivity::loose(
            near,
            on,
            c.wires@,
            crate::connectivity::anchors(c, root),
            k,
        ) == is_free(near, on, root, c, k / 2, crate::connectivity::wire_end(c.wires@, k)),
{
    let held = crate::connectivity::anchors(c, root);
    let p = crate::connectivity::wire_end(c.wires@, k);
    let free = clear_of(near, p, c.labels@) && clear_of_items(near, p, root, "junction"@)
        && clear_of_items(near, p, root, "no_connect"@) && clear_of_pins(near, p, c.instances@);
    if crate::connectivity::any_near(near, p, held) {
        let j = choose|j: int|
            0 <= j < held.len() && crate::connectivity::says(near, p, #[trigger] held[j]);
        let q = held[j];
        assert(held.contains(q));
        lemma_anchors(c, root, c.instances@.len(), q);
        if c.labels@.contains(q) {
            let i = choose|i: int| 0 <= i < c.labels@.len() && c.labels@[i] == q;
            assert(near_one(near, p, c.labels@, i));
        } else if exists|i: int| #[trigger] stands_at(root, i, "junction"@, q) {
            let i = choose|i: int| #[trigger] stands_at(root, i, "junction"@, q);
        } else if exists|i: int| #[trigger] stands_at(root, i, "no_connect"@, q) {
            let i = choose|i: int| #[trigger] stands_at(root, i, "no_connect"@, q);
        } else {
            let i = choose|i: int|
                0 <= i < c.instances@.len() && (#[trigger] c.instances@[i]).pins@.contains(q);
            let pins = c.instances@[i].pins@;
            let m = choose|m: int| 0 <= m < pins.len() && pins[m] == q;
            assert(near_one(near, p, pins, m));
        }
        assert(!free);
    } else {
        assert forall|q: Point| #[trigger] crate::connectivity::says(near, p, q) implies !(
        c.labels@.contains(q) || (exists|i: int| #[trigger] stands_at(root, i, "junction"@, q))
            || (exists|i: int| #[trigger] stands_at(root, i, "no_connect"@, q)) || (exists|
            i: int,
        | 0 <= i < c.instances@.len() && (#[trigger] c.instances@[i]).pins@.contains(q))) by {
            lemma_anchors(c, root, c.instances@.len(), q);
            if held.contains(q) {
                let j = choose|j: int| 0 <= j < held.len() && held[j] == q;
                assert(crate::connectivity::says(near, p, held[j]));
            }
        }
        assert(clear_of(near, p, c.labels@)) by {
            assert forall|j: int| !#[trigger] near_one(near, p, c.labels@, j) by {
                if near_one(near, p, c.labels@, j) {
                    assert(c.labels@.contains(c.labels@[j]));
                }
            }
        }
        assert(clear_of_pins(near, p, c.instances@)) by {
            assert forall|i: int, j: int| 0 <= i < c.instances@.len() implies !#[trigger] near_one(
                near,
                p,
                c.instances@[i].pins@,
                j,
            ) by {
                let pins = c.instances@[i].pins@;
                if near_one(near, p, pins, j) {
                    assert(c.instances@[i].pins@.contains(pins[j]));
                }
            }
        }
        assert(free);
    }
}

proof fn lemma_dangling<N: Fn(Point, Point) -> bool, S: Fn(Point, Segment) -> bool>(
    near: N,
    on: S,
    wires: Seq<Segment>,
    held: Seq<Point>,
    n: nat,
)
    requires
        n <= 2 * wires.len(),
    ensures
        forall|i: int|
            0 <= i < crate::connectivity::dangling(near, on, wires, held, n).len() ==> exists|
                k: int,
            |
                0 <= k < n && #[trigger] crate::connectivity::loose(near, on, wires, held, k)
                    && crate::connectivity::wire_end(wires, k)
                    == #[trigger] crate::connectivity::dangling(near, on, wires, held, n)[i],
        forall|k: int|
            0 <= k < n && #[trigger] crate::connectivity::loose(near, on, wires, held, k)
                ==> exists|i: int|
                0 <= i < crate::connectivity::dangling(near, on, wires, held, n).len()
                    && crate::connectivity::cell(
                    #[trigger] crate::connectivity::dangling(near, on, wires, held, n)[i],
                ) == crate::connectivity::cell(crate::connectivity::wire_end(wires, k)),
    decreases n,
{
    if n > 0 {
        lemma_dangling(near, on, wires, held, (n - 1) as nat);
        let before = crate::connectivity::dangling(near, on, wires, held, (n - 1) as nat);
        let now = crate::connectivity::dangling(near, on, wires, held, n);
        assert forall|i: int| 0 <= i < now.len() implies exists|k: int|
            0 <= k < n && #[trigger] crate::connectivity::loose(near, on, wires, held, k)
                && crate::connectivity::wire_end(wires, k) == #[trigger] now[i] by {
            if i < before.len() {
                assert(now[i] == before[i]);
                let k = choose|k: int|
                    0 <= k < n - 1 && #[trigger] crate::connectivity::loose(
                        near,
                        on,
                        wires,
                        held,
                        k,
                    ) && crate::connectivity::wire_end(wires, k) == before[i];
                assert(crate::connectivity::loose(near, on, wires, held, k));
            } else {
                assert(crate::connectivity::loose(near, on, wires, held, n - 1));
            }
        }
        assert forall|k: int|
            0 <= k < n && #[trigger] crate::connectivity::loose(
                near,
                on,
                wires,
                held,
                k,
            ) implies exists|i: int|
            0 <= i < now.len() && crate::connectivity::cell(#[trigger] now[i])
                == crate::connectivity::cell(crate::connectivity::wire_end(wires, k)) by {
            if k < n - 1 {
                let i = choose|i: int|
                    0 <= i < before.len() && crate::connectivity::cell(#[trigger] before[i])
                        == crate::connectivity::cell(crate::connectivity::wire_end(wires, k));
                assert(now[i] == before[i]);
            } else {
                let p = crate::connectivity::wire_end(wires, k);
                if exists|i: int|
                    0 <= i < before.len() && crate::connectivity::cell(#[trigger] before[i])
                        == crate::connectivity::cell(p) {
                    let i = choose|i: int|
                        0 <= i < before.len() && crate::connectivity::cell(#[trigger] before[i])
                            == crate::connectivity::cell(p);
                    assert(now[i] == before[i]);
                } else {
                    assert(now[before.len() as int] == p);
                }
            }
        }
    }
}

proof fn lemma_junctions<N: Fn(Point, Point) -> bool>(
    near: N,
    branches: Seq<Point>,
    junctions: Seq<Point>,
    n: nat,
    r: crate::connectivity::Report,
)
    requires
        n <= branches.len(),
    ensures
        crate::connectivity::junction_reports(near, branches, junctions, n).contains(r) <==> {
            &&& r.kind == ConnectivityDiagnosticKind::MissingJunction
            &&& r.message == "T-junction at "@ + crate::geometry::place_text(r.point)
                + " needs a junction dot"@
            &&& exists|k: int| 0 <= k < n && #[trigger] branches[k] == r.point
            &&& !crate::connectivity::any_near(near, r.point, junctions)
        },
    decreases n,
{
    if n > 0 {
        lemma_junctions(near, branches, junctions, (n - 1) as nat, r);
        let before = crate::connectivity::junction_reports(
            near,
            branches,
            junctions,
            (n - 1) as nat,
        );
        let p = branches[n - 1];
        let own = crate::connectivity::Report {
            kind: ConnectivityDiagnosticKind::MissingJunction,
            point: p,
            message: "T-junction at "@ + crate::geometry::place_text(p)
                + " needs a junction dot"@,
        };
        crate::sequences::pushed_holds(before, own, r);
        assert(branches[n - 1] == p);
    }
}

/// The `i`-th part of a list is a bus entry from `p` to `q`: its size is the way from the one to the
/// other.
pub open spec fn is_entry(root: crate::sexp::Sexp, i: int, p: Point, q: Point) -> bool {
    let entry = root.items()[i];
    &&& stands_at(root, i, "bus_entry"@, p)
    &&& entry.first("size"@) matches Some(size) && {
        &&& q.x == p.x.spec_sum(
            match size.part_number(1) {
                Some(x) => x,
                None => crate::double::Double::spec_zero(),
            },
        )
        &&& q.y == p.y.spec_sum(
            match size.part_number(2) {
                Some(y) => y,
                None => crate::double::Double::spec_zero(),
            },
        )
    }
}

/// `p` lies on a bus and `q` on a wire.
pub open spec fn bridged<S: Fn(Point, Segment) -> bool>(
    on: S,
    p: Point,
    q: Point,
    c: Connections,
    i: int,
    j: int,
) -> bool {
    on_wire(on, p, c.buses@, i) && on_wire(on, q, c.wires@, j)
}

proof fn lemma_bridged<S: Fn(Point, Segment) -> bool>(on: S, p: Point, q: Point, c: Connections)
    ensures
        (crate::connectivity::any_on(on, p, c.buses@) && crate::connectivity::any_on(
            on,
            q,
            c.wires@,
        )) == (exists|i: int, j: int| #[trigger] bridged(on, p, q, c, i, j)),
{
    if crate::connectivity::any_on(on, p, c.buses@) && crate::connectivity::any_on(
        on,
        q,
        c.wires@,
    ) {
        let i = choose|i: int|
            0 <= i < c.buses@.len() && crate::connectivity::says(on, p, #[trigger] c.buses@[i]);
        let j = choose|j: int|
            0 <= j < c.wires@.len() && crate::connectivity::says(on, q, #[trigger] c.wires@[j]);
        assert(bridged(on, p, q, c, i, j));
    }
    if exists|i: int, j: int| #[trigger] bridged(on, p, q, c, i, j) {
        let (i, j) = choose|i: int, j: int| #[trigger] bridged(on, p, q, c, i, j);
        assert(crate::connectivity::says(on, p, c.buses@[i]));
        assert(crate::connectivity::says(on, q, c.wires@[j]));
    }
}

/// What is said of a bus entry that leads nowhere.
pub open spec fn entry_report(p: Point) -> crate::connectivity::Report {
    crate::connectivity::Report {
        kind: ConnectivityDiagnosticKind::UnconnectedBusEntry,
        point: p,
        message: "Bus entry at "@ + crate::geometry::place_text(p)
            + " does not bridge a bus and wire"@,
    }
}

proof fn lemma_entries<S: Fn(Point, Segment) -> bool>(
    on: S,
    entries: Seq<crate::sexp::Sexp>,
    c: Connections,
    n: nat,
    r: crate::connectivity::Report,
)
    requires
        n <= entries.len(),
    ensures
        crate::connectivity::entry_reports(on, entries, c.wires@, c.buses@, n).contains(r) <==> exists|
            k: int,
        |
            0 <= k < n && crate::connectivity::entry_ends(#[trigger] entries[k]) is Some
                && !crate::connectivity::bridges(
                on,
                crate::connectivity::entry_ends(entries[k])->0,
                c.wires@,
                c.buses@,
            ) && r == entry_report((crate::connectivity::entry_ends(entries[k])->0).0),
    decreases n,
{
    if n > 0 {
        lemma_entries(on, entries, c, (n - 1) as nat, r);
        let before = crate::connectivity::entry_reports(
            on,
            entries,
            c.wires@,
            c.buses@,
            (n - 1) as nat,
        );
        if let Some(ends) = crate::connectivity::entry_ends(entries[n - 1]) {
            crate::sequences::pushed_holds(before, entry_report(ends.0), r);
        }
        if before.contains(r) {
            let k = choose|k: int|
                0 <= k < n - 1 && crate::connectivity::entry_ends(#[trigger] entries[k]) is Some
                    && !crate::connectivity::bridges(
                    on,
                    crate::connectivity::entry_ends(entries[k])->0,
                    c.wires@,
                    c.buses@,
                ) && r == entry_report((crate::connectivity::entry_ends(entries[k])->0).0);
            assert(crate::connectivity::entry_ends(entries[k]) is Some);
        }
    }
}

/// A kind of report about sheets.
pub open spec fn is_about_sheets(kind: ConnectivityDiagnosticKind) -> bool {
    kind == ConnectivityDiagnosticKind::DuplicateSheetName || kind
        == ConnectivityDiagnosticKind::DuplicateSheetPin || kind
        == ConnectivityDiagnosticKind::UnpositionedSheetField
}

proof fn lemma_pin_kinds(pins: Seq<crate::sexp::Sexp>, at: Point, n: nat)
    ensures
        forall|i: int|
            0 <= i < crate::connectivity::pin_reports(pins, at, n).len() ==> (
            #[trigger] crate::connectivity::pin_reports(pins, at, n)[i]).kind
                == ConnectivityDiagnosticKind::DuplicateSheetPin,
    decreases n,
{
    if n > 0 {
        lemma_pin_kinds(pins, at, (n - 1) as nat);
        let before = crate::connectivity::pin_reports(pins, at, (n - 1) as nat);
        assert forall|i: int|
            0 <= i < crate::connectivity::pin_reports(pins, at, n).len() implies (
        #[trigger] crate::connectivity::pin_reports(pins, at, n)[i]).kind
            == ConnectivityDiagnosticKind::DuplicateSheetPin by {
            if i < before.len() {
                assert(crate::connectivity::pin_reports(pins, at, n)[i] == before[i]);
            }
        }
    }
}

proof fn lemma_field_kinds(fields: Seq<crate::sexp::Sexp>, n: nat)
    ensures
        forall|i: int|
            0 <= i < crate::connectivity::field_reports(fields, n).len() ==> (
            #[trigger] crate::connectivity::field_reports(fields, n)[i]).kind
                == ConnectivityDiagnosticKind::UnpositionedSheetField,
    decreases n,
{
    if n > 0 {
        lemma_field_kinds(fields, (n - 1) as nat);
        let before = crate::connectivity::field_reports(fields, (n - 1) as nat);
        assert forall|i: int|
            0 <= i < crate::connectivity::field_reports(fields, n).len() implies (
        #[trigger] crate::connectivity::field_reports(fields, n)[i]).kind
            == ConnectivityDiagnosticKind::UnpositionedSheetField by {
            if i < before.len() {
                assert(crate::connectivity::field_reports(fields, n)[i] == before[i]);
            }
        }
    }
}

proof fn lemma_sheets(sheets: Seq<crate::sexp::Sexp>, n: nat, r: crate::connectivity::Report)
    ensures
        crate::connectivity::sheet_reports(sheets, n).contains(r) <==> exists|i: int|
            0 <= i < n && #[trigger] crate::connectivity::one_sheet(sheets, i).contains(r),
    decreases n,
{
    if n > 0 {
        lemma_sheets(sheets, (n - 1) as nat, r);
        let before = crate::connectivity::sheet_reports(sheets, (n - 1) as nat);
        crate::sequences::either_holds(before, crate::connectivity::one_sheet(sheets, n - 1), r);
        if before.contains(r) {
            let i = choose|i: int|
                0 <= i < n - 1 && #[trigger] crate::connectivity::one_sheet(sheets, i).contains(r);
            assert(crate::connectivity::one_sheet(sheets, i).contains(r));
        }
    }
}

proof fn lemma_one_sheet(
    sheets: Seq<crate::sexp::Sexp>,
    i: int,
    r: crate::connectivity::Report,
)
    ensures
        crate::connectivity::one_sheet(sheets, i).contains(r) ==> is_about_sheets(r.kind),
        crate::connectivity::one_sheet(sheets, i).contains(r) <==> (
        crate::connectivity::name_reports(sheets, i).contains(r)
            || crate::connectivity::pin_reports(
            sheets[i].tagged("pin"@),
            crate::connectivity::sheet_point(sheets[i]),
            sheets[i].tagged("pin"@).len(),
        ).contains(r) || crate::connectivity::field_reports(
            sheets[i].properties(),
            sheets[i].properties().len(),
        ).contains(r)),
        crate::connectivity::name_reports(sheets, i).contains(r) ==> r.kind
            == ConnectivityDiagnosticKind::DuplicateSheetName,
        crate::connectivity::pin_reports(
            sheets[i].tagged("pin"@),
            crate::connectivity::sheet_point(sheets[i]),
            sheets[i].tagged("pin"@).len(),
        ).contains(r) ==> r.kind == ConnectivityDiagnosticKind::DuplicateSheetPin,
        crate::connectivity::field_reports(
            sheets[i].properties(),
            sheets[i].properties().len(),
        ).contains(r) ==> r.kind == ConnectivityDiagnosticKind::UnpositionedSheetField,
{
    let pins = sheets[i].tagged("pin"@);
    let fields = sheets[i].properties();
    let at = crate::connectivity::sheet_point(sheets[i]);
    let a = crate::connectivity::name_reports(sheets, i);
    let b = crate::connectivity::pin_reports(pins, at, pins.len());
    let c = crate::connectivity::field_reports(fields, fields.len());
    crate::sequences::either_holds(a + b, c, r);
    crate::sequences::either_holds(a, b, r);
    lemma_pin_kinds(pins, at, pins.len());
    lemma_field_kinds(fields, fields.len());
}

proof fn lemma_all<N: Fn(Point, Point) -> bool, S: Fn(Point, Segment) -> bool>(
    root: crate::sexp::Sexp,
    c: Connections,
    near: N,
    on: S,
    r: crate::connectivity::Report,
)
    ensures
        crate::connectivity::connectivity(root, c, near, on).contains(r) <==> {
            let markers = crate::connectivity::positions(root, "no_connect"@);
            let entries = root.tagged("bus_entry"@);
            let sheets = root.tagged("sheet"@);
            ||| crate::connectivity::marked_reports(on, markers, c.wires@, markers.len()).contains(r)
            ||| crate::connectivity::reference_reports(
                c.instances@,
                c.instances@.len(),
            ).contains(r)
            ||| crate::connectivity::dangling(
                near,
                on,
                c.wires@,
                crate::connectivity::anchors(c, root),
                2 * c.wires@.len(),
            ).map_values(|p: Point| crate::connectivity::dangling_report(p)).contains(r)
            ||| crate::connectivity::junction_reports(
                near,
                c.t_junctions@,
                crate::connectivity::positions(root, "junction"@),
                c.t_junctions@.len(),
            ).contains(r)
            ||| crate::connectivity::entry_reports(
                on,
                entries,
                c.wires@,
                c.buses@,
                entries.len(),
            ).contains(r)
            ||| crate::connectivity::sheet_reports(sheets, sheets.len()).contains(r)
        },
{
    let markers = crate::connectivity::positions(root, "no_connect"@);
    let entries = root.tagged("bus_entry"@);
    let sheets = root.tagged("sheet"@);
    let m = crate::connectivity::marked_reports(on, markers, c.wires@, markers.len());
    let f = crate::connectivity::reference_reports(c.instances@, c.instances@.len());
    let d = crate::connectivity::dangling(
        near,
        on,
        c.wires@,
        crate::connectivity::anchors(c, root),
        2 * c.wires@.len(),
    ).map_values(|p: Point| crate::connectivity::dangling_report(p));
    let j = crate::connectivity::junction_reports(
        near,
        c.t_junctions@,
        crate::connectivity::positions(root, "junction"@),
        c.t_junctions@.len(),
    );
    let e = crate::connectivity::entry_reports(on, entries, c.wires@, c.buses@, entries.len());
    let s = crate::connectivity::sheet_reports(sheets, sheets.len());
    crate::sequences::either_holds(m + f + d + j + e, s, r);
    crate::sequences::either_holds(m + f + d + j, e, r);
    crate::sequences::either_holds(m + f + d, j, r);
    crate::sequences::either_holds(m + f, d, r);
    crate::sequences::either_holds(m, f, r);
}

proof fn lemma_kinds<N: Fn(Point, Point) -> bool, S: Fn(Point, Segment) -> bool>(
    root: crate::sexp::Sexp,
    c: Connections,
    near: N,
    on: S,
    r: crate::connectivity::Report,
)
    ensures
        ({
            let markers = crate::connectivity::positions(root, "no_connect"@);
            let entries = root.tagged("bus_entry"@);
            let sheets = root.tagged("sheet"@);
            &&& crate::connectivity::marked_reports(
                on,
                markers,
                c.wires@,
                markers.len(),
            ).contains(r) ==> r.kind == ConnectivityDiagnosticKind::ConnectedNoConnect
            &&& crate::connectivity::reference_reports(
                c.instances@,
                c.instances@.len(),
            ).contains(r) ==> r.kind == ConnectivityDiagnosticKind::DuplicateReference
            &&& crate::connectivity::dangling(
                near,
                on,
                c.wires@,
                crate::connectivity::anchors(c, root),
                2 * c.wires@.len(),
            ).map_values(|p: Point| crate::connectivity::dangling_report(p)).contains(r) ==> r.kind
                == ConnectivityDiagnosticKind::DanglingWire
            &&& crate::connectivity::junction_reports(
                near,
                c.t_junctions@,
                crate::connectivity::positions(root, "junction"@),
                c.t_junctions@.len(),
            ).contains(r) ==> r.kind == ConnectivityDiagnosticKind::MissingJunction
            &&& crate::connectivity::entry_reports(
                on,
                entries,
                c.wires@,
                c.buses@,
                entries.len(),
            ).contains(r) ==> r.kind == ConnectivityDiagnosticKind::UnconnectedBusEntry
            &&& crate::connectivity::sheet_reports(sheets, sheets.len()).contains(r)
                ==> is_about_sheets(r.kind)
        }),
{
    let markers = crate::connectivity::positions(root, "no_connect"@);
    let entries = root.tagged("bus_entry"@);
    let sheets = root.tagged("sheet"@);
    lemma_marked(on, markers, c.wires@, markers.len(), r);
    lemma_references(c.instances@, c.instances@.len(), r);
    lemma_junctions(
        near,
        c.t_junctions@,
        crate::connectivity::positions(root, "junction"@),
        c.t_junctions@.len(),
        r,
    );
    lemma_entries(on, entries, c, entries.len(), r);
    lemma_sheets(sheets, sheets.len(), r);
    if crate::connectivity::sheet_reports(sheets, sheets.len()).contains(r) {
        let i = choose|i: int|
            0 <= i < sheets.len() && #[trigger] crate::connectivity::one_sheet(
                sheets,
                i,
            ).contains(r);
        lemma_one_sheet(sheets, i, r);
    }
}

/// A no-connect marker is reported exactly if it stands on a wire.
pub proof fn markers_on_wires_are_reported<
    N: Fn(Point, Point) -> bool,
    S: Fn(Point, Segment) -> bool,
>(
    root: crate::sexp::Sexp,
    c: Connections,
    near: N,
    on: S,
    r: crate::connectivity::Report,
)
    requires
        r.kind == ConnectivityDiagnosticKind::ConnectedNoConnect,
    ensures
        crate::connectivity::connectivity(root, c, near, on).contains(r) <==> {
            &&& r.message == "No-connect marker at "@ + crate::geometry::place_text(r.point)
                + " is attached to a wire"@
            &&& exists|i: int| #[trigger] stands_at(root, i, "no_connect"@, r.point)
            &&& exists|j: int| #[trigger] on_wire(on, r.point, c.wires@, j)
        },
{
    let markers = crate::connectivity::positions(root, "no_connect"@);
    lemma_all(root, c, near, on, r);
    lemma_kinds(root, c, near, on, r);
    lemma_marked(on, markers, c.wires@, markers.len(), r);
    positions_are_those_of_the_items(root, "no_connect"@, r.point);
}

/// A symbol is reported for its reference exactly if a symbol before it has the same one, unless the
/// reference is empty or still open. The report names the place of the last one before it.
pub proof fn repeated_references_are_reported<
    N: Fn(Point, Point) -> bool,
    S: Fn(Point, Segment) -> bool,
>(
    root: crate::sexp::Sexp,
    c: Connections,
    near: N,
    on: S,
    r: crate::connectivity::Report,
)
    requires
        r.kind == ConnectivityDiagnosticKind::DuplicateReference,
    ensures
        crate::connectivity::connectivity(root, c, near, on).contains(r) <==> exists|
            j: int,
            k: int,
        | #[trigger]
            repeats(c.instances@, j, k) && r == repeat_report(c.instances@, j, k),
{
    lemma_all(root, c, near, on, r);
    lemma_kinds(root, c, near, on, r);
    lemma_references(c.instances@, c.instances@.len(), r);
}

/// A wire end that is reported as dangling is one that nothing holds: no pin of a placed symbol, no
/// label, junction or no-connect marker is near it, and no other wire goes through it.
pub proof fn held_wire_ends_are_not_reported<
    N: Fn(Point, Point) -> bool,
    S: Fn(Point, Segment) -> bool,
>(
    root: crate::sexp::Sexp,
    c: Connections,
    near: N,
    on: S,
    r: crate::connectivity::Report,
)
    requires
        r.kind == ConnectivityDiagnosticKind::DanglingWire,
        crate::connectivity::connectivity(root, c, near, on).contains(r),
    ensures
        r.message == "Dangling wire end at "@ + crate::geometry::place_text(r.point),
        exists|k: int| #[trigger]
            ends_wire(c.wires@, k, r.point) && is_free(near, on, root, c, k, r.point),
{
    lemma_all(root, c, near, on, r);
    lemma_kinds(root, c, near, on, r);
    let held = crate::connectivity::anchors(c, root);
    let n = 2 * c.wires@.len();
    let found = crate::connectivity::dangling(near, on, c.wires@, held, n);
    lemma_dangling(near, on, c.wires@, held, n);
    let said = found.map_values(|p: Point| crate::connectivity::dangling_report(p));
    let i = choose|i: int| 0 <= i < said.len() && said[i] == r;
    assert(r == crate::connectivity::dangling_report(found[i]));
    let k = choose|k: int|
        0 <= k < n && #[trigger] crate::connectivity::loose(near, on, c.wires@, held, k)
            && crate::connectivity::wire_end(c.wires@, k) == found[i];
    lemma_free(near, on, root, c, k);
    assert(ends_wire(c.wires@, k / 2, r.point));
}

/// Every wire end that nothing holds is reported as dangling, there or at another such end within
/// the same hundredth of a millimetre.
pub proof fn free_wire_ends_are_reported<
    N: Fn(Point, Point) -> bool,
    S: Fn(Point, Segment) -> bool,
>(
    root: crate::sexp::Sexp,
    c: Connections,
    near: N,
    on: S,
    k: int,
    p: Point,
)
    requires
        ends_wire(c.wires@, k, p),
        is_free(near, on, root, c, k, p),
    ensures
        exists|r: crate::connectivity::Report| #[trigger]
            crate::connectivity::connectivity(root, c, near, on).contains(r) && r.kind
                == ConnectivityDiagnosticKind::DanglingWire && crate::connectivity::cell(r.point)
                == crate::connectivity::cell(p),
{
    let held = crate::connectivity::anchors(c, root);
    let n = 2 * c.wires@.len();
    let found = crate::connectivity::dangling(near, on, c.wires@, held, n);
    lemma_dangling(near, on, c.wires@, held, n);
    let m = if p == c.wires@[k].start {
        2 * k
    } else {
        2 * k + 1
    };
    assert(m / 2 == k);
    assert(crate::connectivity::wire_end(c.wires@, m) == p);
    lemma_free(near, on, root, c, m);
    assert(crate::connectivity::loose(near, on, c.wires@, held, m));
    let i = choose|i: int|
        0 <= i < found.len() && crate::connectivity::cell(#[trigger] found[i])
            == crate::connectivity::cell(crate::connectivity::wire_end(c.wires@, m));
    let said = found.map_values(|p: Point| crate::connectivity::dangling_report(p));
    let r = crate::connectivity::dangling_report(found[i]);
    assert(said[i] == r);
    lemma_all(root, c, near, on, r);
}

/// A place where a wire ends on another is reported exactly if no junction is near it.
pub proof fn branches_without_junctions_are_reported<
    N: Fn(Point, Point) -> bool,
    S: Fn(Point, Segment) -> bool,
>(
    root: crate::sexp::Sexp,
    c: Connections,
    near: N,
    on: S,
    r: crate::connectivity::Report,
)
    requires
        r.kind == ConnectivityDiagnosticKind::MissingJunction,
    ensures
        crate::connectivity::connectivity(root, c, near, on).contains(r) <==> {
            &&& r.message == "T-junction at "@ + crate::geometry::place_text(r.point)
                + " needs a junction dot"@
            &&& exists|k: int| 0 <= k < c.t_junctions@.len() && #[trigger] c.t_junctions@[k]
                == r.point
            &&& clear_of_items(near, r.point, root, "junction"@)
        },
{
    let junctions = crate::connectivity::positions(root, "junction"@);
    let p = r.point;
    lemma_all(root, c, near, on, r);
    lemma_kinds(root, c, near, on, r);
    lemma_junctions(near, c.t_junctions@, junctions, c.t_junctions@.len(), r);
    if crate::connectivity::any_near(near, p, junctions) {
        let j = choose|j: int|
            0 <= j < junctions.len() && crate::connectivity::says(near, p, #[trigger] junctions[j]);
        assert(junctions.contains(junctions[j]));
        positions_are_those_of_the_items(root, "junction"@, junctions[j]);
    } else {
        assert forall|i: int, q: Point| #[trigger]
            stands_at(root, i, "junction"@, q) implies !crate::connectivity::says(near, p, q) by {
            positions_are_those_of_the_items(root, "junction"@, q);
            let j = choose|j: int| 0 <= j < junctions.len() && junctions[j] == q;
            assert(junctions[j] == q);
        }
    }
}

/// A bus entry is reported exactly if it does not lead from a bus to a wire, whichever of its ends is
/// on which.
pub proof fn entries_that_lead_nowhere_are_reported<
    N: Fn(Point, Point) -> bool,
    S: Fn(Point, Segment) -> bool,
>(
    root: crate::sexp::Sexp,
    c: Connections,
    near: N,
    on: S,
    r: crate::connectivity::Report,
)
    requires
        r.kind == ConnectivityDiagnosticKind::UnconnectedBusEntry,
    ensures
        crate::connectivity::connectivity(root, c, near, on).contains(r) <==> exists|
            i: int,
            p: Point,
            q: Point,
        | #[trigger]
            is_entry(root, i, p, q) && r == entry_report(p) && !(exists|a: int, b: int| #[trigger]
                bridged(on, p, q, c, a, b)) && !(exists|a: int, b: int| #[trigger]
                bridged(on, q, p, c, a, b)),
{
    let entries = root.tagged("bus_entry"@);
    lemma_all(root, c, near, on, r);
    lemma_kinds(root, c, near, on, r);
    lemma_entries(on, entries, c, entries.len(), r);
    if crate::connectivity::entry_reports(
        on,
        entries,
        c.wires@,
        c.buses@,
        entries.len(),
    ).contains(r) {
        let k = choose|k: int|
            0 <= k < entries.len() && crate::connectivity::entry_ends(#[trigger] entries[k]) is Some
                && !crate::connectivity::bridges(
                on,
                crate::connectivity::entry_ends(entries[k])->0,
                c.wires@,
                c.buses@,
            ) && r == entry_report((crate::connectivity::entry_ends(entries[k])->0).0);
        let i = crate::sexp::tagged_parts_are_parts(root, "bus_entry"@, k);
        let (p, q) = crate::connectivity::entry_ends(entries[k])->0;
        lemma_bridged(on, p, q, c);
        lemma_bridged(on, q, p, c);
        assert(is_entry(root, i, p, q));
    }
    if exists|i: int, p: Point, q: Point| #[trigger]
        is_entry(root, i, p, q) && r == entry_report(p) && !(exists|a: int, b: int| #[trigger]
            bridged(on, p, q, c, a, b)) && !(exists|a: int, b: int| #[trigger]
            bridged(on, q, p, c, a, b)) {
        let (i, p, q) = choose|i: int, p: Point, q: Point| #[trigger]
            is_entry(root, i, p, q) && r == entry_report(p) && !(exists|a: int, b: int| #[trigger]
                bridged(on, p, q, c, a, b)) && !(exists|a: int, b: int| #[trigger]
                bridged(on, q, p, c, a, b));
        crate::sexp::tagged_parts_are_found(root, "bus_entry"@, i);
        let k = choose|k: int| 0 <= k < entries.len() && entries[k] == root.items()[i];
        lemma_bridged(on, p, q, c);
        lemma_bridged(on, q, p, c);
        let ends = crate::connectivity::entry_ends(entries[k])->0;
        assert(ends.1 == q);
        assert(crate::connectivity::entry_ends(entries[k]) is Some);
    }
}

/// The property at `i` is the first of a name that has a value, and that is `value`.
pub open spec fn is_first_value(
    properties: Seq<crate::sexp::Sexp>,
    name: Seq<char>,
    i: int,
    value: Seq<char>,
) -> bool {
    &&& 0 <= i < properties.len()
    &&& properties[i].part_text(1) == Some(name)
    &&& properties[i].part_text(2) == Some(value)
    &&& forall|j: int|
        0 <= j < i && (#[trigger] properties[j]).part_text(1) == Some(name)
            ==> properties[j].part_text(2) is None
}

/// A sheet has a name, which is not empty.
pub open spec fn is_called(sheet: crate::sexp::Sexp, name: Seq<char>) -> bool {
    name.len() > 0 && exists|i: int| #[trigger]
        is_first_value(sheet.tagged("property"@), "Sheetname"@, i, name)
}

proof fn lemma_value_from(
    properties: Seq<crate::sexp::Sexp>,
    name: Seq<char>,
    from: nat,
    value: Seq<char>,
)
    requires
        from <= properties.len(),
        forall|j: int|
            0 <= j < from && (#[trigger] properties[j]).part_text(1) == Some(name)
                ==> properties[j].part_text(2) is None,
    ensures
        crate::readers::value_from(properties, name, from) == Some(value) <==> exists|i: int|
            #[trigger]
            is_first_value(properties, name, i, value),
    decreases properties.len() - from,
{
    if from < properties.len() {
        let own = properties[from as int];
        if own.part_text(1) == Some(name) && own.part_text(2) is Some {
            let v = own.part_text(2)->0;
            assert(is_first_value(properties, name, from as int, v));
            if exists|i: int| #[trigger] is_first_value(properties, name, i, value) {
                let i = choose|i: int| #[trigger] is_first_value(properties, name, i, value);
                if i < from {
                    assert(properties[i].part_text(2) is None);
                } else if i > from {
                    assert(properties[from as int].part_text(2) is None);
                }
                assert(i == from);
            }
        } else {
            lemma_value_from(properties, name, from + 1, value);
        }
    }
}

/// The value that a sheet has for a name is that of its first property of that name with a value.
pub proof fn first_value_counts(node: crate::sexp::Sexp, name: Seq<char>, value: Seq<char>)
    ensures
        crate::readers::sheet_value(node, name) == Some(value) <==> exists|i: int| #[trigger]
            is_first_value(node.tagged("property"@), name, i, value),
{
    lemma_value_from(node.tagged("property"@), name, 0, value);
}

proof fn lemma_called(sheet: crate::sexp::Sexp, name: Seq<char>)
    ensures
        crate::connectivity::sheet_name(sheet) == Some(name) <==> is_called(sheet, name),
{
    first_value_counts(sheet, "Sheetname"@, name);
}

/// Where a sheet stands, the origin of the page where it does not say.
pub open spec fn corner_of(sheet: crate::sexp::Sexp) -> Point {
    match sheet.at_point() {
        Some(p) => p,
        None => Point {
            x: crate::double::Double::spec_zero(),
            y: crate::double::Double::spec_zero(),
        },
    }
}

/// The sheet at `k` has the name of the sheet at `j` before it, the last before it that has.
pub open spec fn is_called_again(
    sheets: Seq<crate::sexp::Sexp>,
    j: int,
    k: int,
    name: Seq<char>,
) -> bool {
    &&& 0 <= j < k < sheets.len()
    &&& is_called(sheets[j], name)
    &&& is_called(sheets[k], name)
    &&& forall|m: int| j < m < k ==> !is_called(#[trigger] sheets[m], name)
}

/// What is said of a name that a sheet has again.
pub open spec fn name_report(
    sheets: Seq<crate::sexp::Sexp>,
    j: int,
    k: int,
    name: Seq<char>,
) -> crate::connectivity::Report {
    crate::connectivity::Report {
        kind: ConnectivityDiagnosticKind::DuplicateSheetName,
        point: corner_of(sheets[k]),
        message: "Duplicate hierarchical sheet name "@ + name + " at "@
            + crate::geometry::place_text(corner_of(sheets[k])) + "; first at "@
            + crate::geometry::place_text(corner_of(sheets[j])),
    }
}

proof fn lemma_earlier_sheet(sheets: Seq<crate::sexp::Sexp>, k: int, n: nat, name: Seq<char>)
    requires
        0 <= k < sheets.len(),
        n <= k,
        is_called(sheets[k], name),
        forall|m: int| n <= m < k ==> !is_called(#[trigger] sheets[m], name),
    ensures
        match crate::connectivity::earlier_sheet(sheets, name, n) {
            Some(p) => exists|j: int| #[trigger]
                is_called_again(sheets, j, k, name) && corner_of(sheets[j]) == p,
            None => forall|j: int| !#[trigger] is_called_again(sheets, j, k, name),
        },
    decreases n,
{
    if n > 0 {
        lemma_called(sheets[n - 1], name);
        if is_called(sheets[n - 1], name) {
            assert(is_called_again(sheets, n - 1, k, name));
        } else {
            lemma_earlier_sheet(sheets, k, (n - 1) as nat, name);
        }
    }
}

proof fn lemma_name_reports(
    sheets: Seq<crate::sexp::Sexp>,
    k: int,
    r: crate::connectivity::Report,
)
    requires
        0 <= k < sheets.len(),
    ensures
        crate::connectivity::name_reports(sheets, k).contains(r) <==> exists|
            j: int,
            name: Seq<char>,
        | #[trigger]
            is_called_again(sheets, j, k, name) && r == name_report(sheets, j, k, name),
{
    match crate::connectivity::sheet_name(sheets[k]) {
        None => {
            assert forall|j: int, name: Seq<char>| !#[trigger]
                is_called_again(sheets, j, k, name) by {
                lemma_called(sheets[k], name);
            }
        },
        Some(name) => {
            lemma_called(sheets[k], name);
            lemma_earlier_sheet(sheets, k, k as nat, name);
            match crate::connectivity::earlier_sheet(sheets, name, k as nat) {
                Some(p) => {
                    let i = choose|i: int| #[trigger]
                        is_called_again(sheets, i, k, name) && corner_of(sheets[i]) == p;
                    let own = name_report(sheets, i, k, name);
                    assert(crate::connectivity::name_reports(sheets, k) =~= seq![own]);
                    assert(seq![own][0] == own);
                    assert forall|j: int, other: Seq<char>| #[trigger]
                        is_called_again(sheets, j, k, other) implies j == i && other == name by {
                        lemma_called(sheets[k], other);
                        if j < i {
                            assert(is_called(sheets[i], name));
                        } else if i < j {
                            assert(is_called(sheets[j], name));
                        }
                    }
                },
                None => {
                    assert forall|j: int, other: Seq<char>| !#[trigger]
                        is_called_again(sheets, j, k, other) by {
                        lemma_called(sheets[k], other);
                    }
                },
            }
        },
    }
}

/// A sheet is reported for its name exactly if a sheet before it has the same one. The report names
/// the place of the last one before it.
pub proof fn repeated_sheet_names_are_reported<
    N: Fn(Point, Point) -> bool,
    S: Fn(Point, Segment) -> bool,
>(
    root: crate::sexp::Sexp,
    c: Connections,
    near: N,
    on: S,
    r: crate::connectivity::Report,
)
    requires
        r.kind == ConnectivityDiagnosticKind::DuplicateSheetName,
    ensures
        crate::connectivity::connectivity(root, c, near, on).contains(r) <==> exists|
            j: int,
            k: int,
            name: Seq<char>,
        | #[trigger]
            is_called_again(root.tagged("sheet"@), j, k, name) && r == name_report(
                root.tagged("sheet"@),
                j,
                k,
                name,
            ),
{
    let sheets = root.tagged("sheet"@);
    lemma_all(root, c, near, on, r);
    lemma_kinds(root, c, near, on, r);
    lemma_sheets(sheets, sheets.len(), r);
    if crate::connectivity::sheet_reports(sheets, sheets.len()).contains(r) {
        let k = choose|k: int|
            0 <= k < sheets.len() && #[trigger] crate::connectivity::one_sheet(
                sheets,
                k,
            ).contains(r);
        lemma_one_sheet(sheets, k, r);
        lemma_name_reports(sheets, k, r);
        let (j, name) = choose|j: int, name: Seq<char>| #[trigger]
            is_called_again(sheets, j, k, name) && r == name_report(sheets, j, k, name);
        assert(is_called_again(sheets, j, k, name));
    }
    if exists|j: int, k: int, name: Seq<char>| #[trigger]
        is_called_again(sheets, j, k, name) && r == name_report(sheets, j, k, name) {
        let (j, k, name) = choose|j: int, k: int, name: Seq<char>| #[trigger]
            is_called_again(sheets, j, k, name) && r == name_report(sheets, j, k, name);
        lemma_name_reports(sheets, k, r);
        lemma_one_sheet(sheets, k, r);
        assert(crate::connectivity::one_sheet(sheets, k).contains(r));
    }
}

/// The pin at `k` of a sheet has the name of a pin before it.
pub open spec fn pin_again(pins: Seq<crate::sexp::Sexp>, j: int, k: int) -> bool {
    &&& 0 <= j < k < pins.len()
    &&& pins[k].part_text(1) is Some
    &&& pins[j].part_text(1) == pins[k].part_text(1)
}

/// What is said of a pin whose name another one of the sheet has.
pub open spec fn pin_report(sheet: crate::sexp::Sexp, pin: crate::sexp::Sexp) ->
    crate::connectivity::Report {
    crate::connectivity::Report {
        kind: ConnectivityDiagnosticKind::DuplicateSheetPin,
        point: match pin.at_point() {
            Some(p) => p,
            None => corner_of(sheet),
        },
        message: "Hierarchical sheet contains duplicate pin "@ + pin.part_text(1)->0,
    }
}

proof fn lemma_pins(sheet: crate::sexp::Sexp, n: nat, r: crate::connectivity::Report)
    requires
        n <= sheet.tagged("pin"@).len(),
    ensures
        crate::connectivity::pin_reports(
            sheet.tagged("pin"@),
            crate::connectivity::sheet_point(sheet),
            n,
        ).contains(r) <==> exists|j: int, k: int| #[trigger]
            pin_again(sheet.tagged("pin"@), j, k) && k < n && r == pin_report(
                sheet,
                sheet.tagged("pin"@)[k],
            ),
    decreases n,
{
    let pins = sheet.tagged("pin"@);
    let at = crate::connectivity::sheet_point(sheet);
    if n > 0 {
        lemma_pins(sheet, (n - 1) as nat, r);
        let before = crate::connectivity::pin_reports(pins, at, (n - 1) as nat);
        let pin = pins[n - 1];
        crate::sequences::pushed_holds(before, pin_report(sheet, pin), r);
        if before.contains(r) {
            let (j, k) = choose|j: int, k: int| #[trigger]
                pin_again(pins, j, k) && k < n - 1 && r == pin_report(sheet, pins[k]);
            assert(pin_again(pins, j, k) && k < n);
        }
        match pin.part_text(1) {
            Some(name) => {
                if crate::connectivity::pin_named(pins, name, (n - 1) as nat) {
                    let j = choose|j: int|
                        0 <= j < n - 1 && (#[trigger] pins[j]).part_text(1) == Some(name);
                    assert(pin_again(pins, j, n - 1));
                } else {
                    assert forall|j: int| !#[trigger] pin_again(pins, j, n - 1) by {
                        if pin_again(pins, j, n - 1) {
                            assert(pins[j].part_text(1) == Some(name));
                        }
                    }
                }
            },
            None => {},
        }
    }
}

/// A pin of a sheet is reported exactly if a pin before it on the same sheet has the same name.
pub proof fn repeated_sheet_pins_are_reported<
    N: Fn(Point, Point) -> bool,
    S: Fn(Point, Segment) -> bool,
>(
    root: crate::sexp::Sexp,
    c: Connections,
    near: N,
    on: S,
    r: crate::connectivity::Report,
)
    requires
        r.kind == ConnectivityDiagnosticKind::DuplicateSheetPin,
    ensures
        crate::connectivity::connectivity(root, c, near, on).contains(r) <==> exists|
            i: int,
            j: int,
            k: int,
        |
            0 <= i < root.items().len() && root.items()[i].part_text(0) == Some("sheet"@)
                && #[trigger] pin_again(root.items()[i].tagged("pin"@), j, k) && r == pin_report(
                root.items()[i],
                root.items()[i].tagged("pin"@)[k],
            ),
{
    let sheets = root.tagged("sheet"@);
    lemma_all(root, c, near, on, r);
    lemma_kinds(root, c, near, on, r);
    lemma_sheets(sheets, sheets.len(), r);
    if crate::connectivity::sheet_reports(sheets, sheets.len()).contains(r) {
        let m = choose|m: int|
            0 <= m < sheets.len() && #[trigger] crate::connectivity::one_sheet(
                sheets,
                m,
            ).contains(r);
        lemma_one_sheet(sheets, m, r);
        lemma_pins(sheets[m], sheets[m].tagged("pin"@).len(), r);
        let (j, k) = choose|j: int, k: int| #[trigger]
            pin_again(sheets[m].tagged("pin"@), j, k) && k < sheets[m].tagged("pin"@).len() && r
                == pin_report(sheets[m], sheets[m].tagged("pin"@)[k]);
        let i = crate::sexp::tagged_parts_are_parts(root, "sheet"@, m);
        assert(pin_again(root.items()[i].tagged("pin"@), j, k));
    }
    if exists|i: int, j: int, k: int|
        0 <= i < root.items().len() && root.items()[i].part_text(0) == Some("sheet"@)
            && #[trigger] pin_again(root.items()[i].tagged("pin"@), j, k) && r == pin_report(
            root.items()[i],
            root.items()[i].tagged("pin"@)[k],
        ) {
        let (i, j, k) = choose|i: int, j: int, k: int|
            0 <= i < root.items().len() && root.items()[i].part_text(0) == Some("sheet"@)
                && #[trigger] pin_again(root.items()[i].tagged("pin"@), j, k) && r == pin_report(
                root.items()[i],
                root.items()[i].tagged("pin"@)[k],
            );
        crate::sexp::tagged_parts_are_found(root, "sheet"@, i);
        let m = choose|m: int| 0 <= m < sheets.len() && sheets[m] == root.items()[i];
        assert(pin_again(sheets[m].tagged("pin"@), j, k));
        lemma_pins(sheets[m], sheets[m].tagged("pin"@).len(), r);
        lemma_one_sheet(sheets, m, r);
        assert(crate::connectivity::one_sheet(sheets, m).contains(r));
    }
}

/// A field is the name or the file of a sheet, is shown and has no position.
pub open spec fn is_adrift(field: crate::sexp::Sexp, name: Seq<char>) -> bool {
    &&& name == "Sheetname"@ || name == "Sheetfile"@
    &&& field.part_text(0) == Some("property"@)
    &&& field.part_text(1) == Some(name)
    &&& !field.hidden()
    &&& field.at_point() is None
}

/// What is said of a field without a position.
pub open spec fn field_report(name: Seq<char>) -> crate::connectivity::Report {
    crate::connectivity::Report {
        kind: ConnectivityDiagnosticKind::UnpositionedSheetField,
        point: Point {
            x: crate::double::Double::spec_zero(),
            y: crate::double::Double::spec_zero(),
        },
        message: "Visible "@ + name + " has no position; KiCad plots it at the page origin"@,
    }
}

proof fn lemma_fields(fields: Seq<crate::sexp::Sexp>, n: nat, r: crate::connectivity::Report)
    requires
        n <= fields.len(),
        forall|k: int|
            0 <= k < fields.len() ==> (#[trigger] fields[k]).part_text(0) == Some("property"@),
    ensures
        crate::connectivity::field_reports(fields, n).contains(r) <==> exists|
            k: int,
            name: Seq<char>,
        |
            0 <= k < n && #[trigger] is_adrift(fields[k], name) && r == field_report(name),
    decreases n,
{
    if n > 0 {
        lemma_fields(fields, (n - 1) as nat, r);
        let before = crate::connectivity::field_reports(fields, (n - 1) as nat);
        let field = fields[n - 1];
        if before.contains(r) {
            let (k, name) = choose|k: int, name: Seq<char>|
                0 <= k < n - 1 && #[trigger] is_adrift(fields[k], name) && r == field_report(name);
            assert(is_adrift(fields[k], name));
        }
        if crate::connectivity::unpositioned(field) {
            let name = field.part_text(1)->0;
            crate::sequences::pushed_holds(before, field_report(name), r);
            assert(is_adrift(fields[n - 1], name));
        }
    }
}

/// A field of a sheet is reported exactly if it is the name or the file, is shown and has no
/// position.
pub proof fn sheet_fields_without_a_position_are_reported<
    N: Fn(Point, Point) -> bool,
    S: Fn(Point, Segment) -> bool,
>(
    root: crate::sexp::Sexp,
    c: Connections,
    near: N,
    on: S,
    r: crate::connectivity::Report,
)
    requires
        r.kind == ConnectivityDiagnosticKind::UnpositionedSheetField,
    ensures
        crate::connectivity::connectivity(root, c, near, on).contains(r) <==> exists|
            i: int,
            k: int,
            name: Seq<char>,
        |
            0 <= i < root.items().len() && root.items()[i].part_text(0) == Some("sheet"@) && 0 <= k
                < root.items()[i].items().len() && #[trigger] is_adrift(
                root.items()[i].items()[k],
                name,
            ) && r == field_report(name),
{
    let sheets = root.tagged("sheet"@);
    lemma_all(root, c, near, on, r);
    lemma_kinds(root, c, near, on, r);
    lemma_sheets(sheets, sheets.len(), r);
    if crate::connectivity::sheet_reports(sheets, sheets.len()).contains(r) {
        let m = choose|m: int|
            0 <= m < sheets.len() && #[trigger] crate::connectivity::one_sheet(
                sheets,
                m,
            ).contains(r);
        lemma_one_sheet(sheets, m, r);
        let fields = sheets[m].tagged("property"@);
        lemma_tagged(sheets[m], "property"@);
        lemma_fields(fields, fields.len(), r);
        let (q, name) = choose|q: int, name: Seq<char>|
            0 <= q < fields.len() && #[trigger] is_adrift(fields[q], name) && r == field_report(
                name,
            );
        let i = crate::sexp::tagged_parts_are_parts(root, "sheet"@, m);
        let k = crate::sexp::tagged_parts_are_parts(sheets[m], "property"@, q);
        assert(is_adrift(root.items()[i].items()[k], name));
    }
    if exists|i: int, k: int, name: Seq<char>|
        0 <= i < root.items().len() && root.items()[i].part_text(0) == Some("sheet"@) && 0 <= k
            < root.items()[i].items().len() && #[trigger] is_adrift(
            root.items()[i].items()[k],
            name,
        ) && r == field_report(name) {
        let (i, k, name) = choose|i: int, k: int, name: Seq<char>|
            0 <= i < root.items().len() && root.items()[i].part_text(0) == Some("sheet"@) && 0 <= k
                < root.items()[i].items().len() && #[trigger] is_adrift(
                root.items()[i].items()[k],
                name,
            ) && r == field_report(name);
        crate::sexp::tagged_parts_are_found(root, "sheet"@, i);
        let m = choose|m: int| 0 <= m < sheets.len() && sheets[m] == root.items()[i];
        let fields = sheets[m].tagged("property"@);
        lemma_tagged(sheets[m], "property"@);
        crate::sexp::tagged_parts_are_found(sheets[m], "property"@, k);
        let q = choose|q: int| 0 <= q < fields.len() && fields[q] == sheets[m].items()[k];
        assert(is_adrift(fields[q], name));
        lemma_fields(fields, fields.len(), r);
        lemma_one_sheet(sheets, m, r);
        assert(crate::connectivity::one_sheet(sheets, m).contains(r));
    }
}

proof fn lemma_tagged(node: crate::sexp::Sexp, tag: Seq<char>)
    ensures
        forall|k: int|
            0 <= k < node.tagged(tag).len() ==> (#[trigger] node.tagged(tag)[k]).part_text(0)
                == Some(tag),
{
    assert forall|k: int| 0 <= k < node.tagged(tag).len() implies (
    #[trigger] node.tagged(tag)[k]).part_text(0) == Some(tag) by {
        let i = crate::sexp::tagged_parts_are_parts(node, tag, k);
    }
}

} // verus!
