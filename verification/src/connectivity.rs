//! What the viewer reports of a schematic's connections.
//!
//! Whether two points coincide, and whether a point lies on a wire, is measured by the
//! caller; which of it is worth a report, and in what words, is decided here.

use crate::double::Double;
use crate::geometry::format_place;
use crate::geometry::Point;
use crate::readers::at_point;
use crate::readers::is_hidden;
use crate::readers::sheet_property;
use crate::sexp::Node;
use crate::text::ends_with;
use crate::text::same;
use vstd::prelude::*;

verus! {

#[derive(Clone, Copy, PartialEq, Eq, Structural, Debug)]
pub enum ConnectivityDiagnosticKind {
    ConnectedNoConnect,
    DanglingWire,
    DuplicateReference,
    DuplicateSheetName,
    DuplicateSheetPin,
    MissingJunction,
    UnconnectedBusEntry,
    UnpositionedSheetField,
}

/// Something about the connections that the reader of a schematic should know.
pub struct ConnectivityDiagnostic {
    pub kind: ConnectivityDiagnosticKind,
    pub point: Point,
    pub message: String,
}

/// A report as a value.
pub ghost struct Report {
    pub kind: ConnectivityDiagnosticKind,
    pub point: Point,
    pub message: Seq<char>,
}

impl ConnectivityDiagnostic {
    pub open spec fn model(self) -> Report {
        Report { kind: self.kind, point: self.point, message: self.message@ }
    }
}

/// Reports as values.
pub open spec fn reports(diagnostics: Seq<ConnectivityDiagnostic>) -> Seq<Report> {
    diagnostics.map_values(|d: ConnectivityDiagnostic| d.model())
}

/// A straight piece of wire or bus.
#[derive(Clone, Copy, PartialEq, Eq, Structural, Debug)]
pub struct Segment {
    pub start: Point,
    pub end: Point,
}

/// A placed symbol: its reference, its position, and where its pins end.
pub struct Instance {
    pub reference: String,
    pub point: Point,
    pub pins: Vec<Point>,
}

/// What is known of a schematic's connections before they are judged.
pub struct Connections {
    pub wires: Vec<Segment>,
    pub buses: Vec<Segment>,
    pub labels: Vec<Point>,
    pub instances: Vec<Instance>,
    /// Where a wire ends on another between its ends.
    pub t_junctions: Vec<Point>,
}

/// `f` can be asked about any two values and always gives the same answer.
pub open spec fn is_test<A, B, F: Fn(A, B) -> bool>(f: F) -> bool {
    &&& forall|a: A, b: B| #[trigger] call_requires(f, (a, b))
    &&& forall|a: A, b: B|
        !(#[trigger] call_ensures(f, (a, b), true) && #[trigger] call_ensures(f, (a, b), false))
}

/// `f` answers `true`.
pub open spec fn says<A, B, F: Fn(A, B) -> bool>(f: F, a: A, b: B) -> bool {
    call_ensures(f, (a, b), true)
}

fn ask<A: Copy, B: Copy, F: Fn(A, B) -> bool + Copy>(f: F, a: A, b: B) -> (r: bool)
    requires
        is_test(f),
    ensures
        r == says(f, a, b),
{
    f(a, b)
}

/// The coordinates of a file, and sums of two of them.
pub open spec fn wf_place(p: Point) -> bool {
    &&& p.x.wf() && p.x.within(3000) && p.x.exponent <= 10
    &&& p.y.wf() && p.y.within(3000) && p.y.exponent <= 10
}

pub open spec fn wf_places(points: Seq<Point>) -> bool {
    forall|i: int| 0 <= i < points.len() ==> wf_place(#[trigger] points[i])
}

pub open spec fn wf_segments(segments: Seq<Segment>) -> bool {
    forall|i: int|
        0 <= i < segments.len() ==> wf_place((#[trigger] segments[i]).start) && wf_place(
            segments[i].end,
        )
}

impl Connections {
    pub open spec fn wf(self) -> bool {
        &&& wf_segments(self.wires@)
        &&& wf_segments(self.buses@)
        &&& wf_places(self.labels@)
        &&& wf_places(self.t_junctions@)
        &&& forall|i: int|
            0 <= i < self.instances@.len() ==> wf_place((#[trigger] self.instances@[i]).point)
                && wf_places(self.instances@[i].pins@)
    }
}

/// One of the points is near `p`.
pub open spec fn any_near<N: Fn(Point, Point) -> bool>(near: N, p: Point, points: Seq<Point>) -> bool {
    exists|i: int| 0 <= i < points.len() && says(near, p, #[trigger] points[i])
}

/// `p` lies on one of the segments.
pub open spec fn any_on<S: Fn(Point, Segment) -> bool>(
    on: S,
    p: Point,
    segments: Seq<Segment>,
) -> bool {
    exists|i: int| 0 <= i < segments.len() && says(on, p, #[trigger] segments[i])
}

/// `p` lies on one of the segments other than the one at `own`.
pub open spec fn any_other_on<S: Fn(Point, Segment) -> bool>(
    on: S,
    p: Point,
    segments: Seq<Segment>,
    own: int,
) -> bool {
    exists|i: int| 0 <= i < segments.len() && i != own && says(on, p, #[trigger] segments[i])
}

pub fn is_near_any<N: Fn(Point, Point) -> bool + Copy>(near: N, p: Point, points: &Vec<Point>) -> (r:
    bool)
    requires
        is_test(near),
    ensures
        r == any_near(near, p, points@),
{
    let mut i: usize = 0;
    while i < points.len()
        invariant
            i <= points@.len(),
            is_test(near),
            forall|k: int| 0 <= k < i ==> !says(near, p, #[trigger] points@[k]),
        decreases points@.len() - i,
    {
        if ask(near, p, points[i]) {
            return true;
        }
        i = i + 1;
    }
    false
}

fn is_on_any<S: Fn(Point, Segment) -> bool + Copy>(
    on: S,
    p: Point,
    segments: &Vec<Segment>,
    own: Option<usize>,
) -> (r: bool)
    requires
        is_test(on),
    ensures
        own is None ==> r == any_on(on, p, segments@),
        own matches Some(own) ==> r == any_other_on(on, p, segments@, own as int),
{
    let mut i: usize = 0;
    while i < segments.len()
        invariant
            i <= segments@.len(),
            is_test(on),
            forall|k: int|
                0 <= k < i && own != Some(k as usize) ==> !says(on, p, #[trigger] segments@[k]),
        decreases segments@.len() - i,
    {
        let skip: bool = match own {
            Some(own) => own == i,
            None => false,
        };
        if !skip && ask(on, p, segments[i]) {
            return true;
        }
        i = i + 1;
    }
    false
}

/// The positions of the items that begin with `tag`, from the first `n` of them.
pub open spec fn positions_upto(items: Seq<crate::sexp::Sexp>, n: nat) -> Seq<Point>
    decreases n,
{
    if n == 0 {
        Seq::empty()
    } else {
        let before = positions_upto(items, (n - 1) as nat);
        match items[n - 1].at_point() {
            Some(point) => before.push(point),
            None => before,
        }
    }
}

/// The positions of the items that begin with `tag`.
pub open spec fn positions(root: crate::sexp::Sexp, tag: Seq<char>) -> Seq<Point> {
    positions_upto(root.tagged(tag), root.tagged(tag).len())
}

pub fn positions_of(root: &Node, tag: &str) -> (r: Vec<Point>)
    requires
        root.wf(),
    ensures
        r@ == positions(root@, tag@),
        wf_places(r@),
{
    let items = root.find_all(tag);
    let ghost all = root@.tagged(tag@);
    let mut r: Vec<Point> = Vec::new();
    let mut i: usize = 0;
    while i < items.len()
        invariant
            i <= items@.len(),
            crate::sexp::ref_sexps(items@) == all,
            forall|i: int| 0 <= i < items@.len() ==> (#[trigger] items@[i]).wf(),
            r@ =~= positions_upto(all, i as nat),
            wf_places(r@),
        decreases items@.len() - i,
    {
        assert(all[i as int] == items@[i as int]@);
        match at_point(items[i]) {
            Some(point) => {
                proof {
                    lemma_read_place(*items@[i as int], point);
                }
                r.push(point);
            },
            None => {},
        }
        i = i + 1;
    }
    r
}

/// A position that is read from an expression is one of a file.
proof fn lemma_read_place(node: Node, point: Point)
    requires
        node.wf(),
        node@.at_point() == Some(point),
    ensures
        wf_place(point),
{
    crate::sexp::lemma_numbers(node);
    let at = node@.first("at"@)->0;
    crate::sexp::lemma_first_sound(node@, "at"@);
    assert(at.sound());
    assert(at.items()[1].sound());
    assert(at.items()[2].sound());
}

/// The points that hold a wire's end: labels, junctions, no-connect markers and pins of the
/// first `n` symbols.
pub open spec fn anchors_upto(c: Connections, root: crate::sexp::Sexp, n: nat) -> Seq<Point>
    decreases n,
{
    if n == 0 {
        c.labels@ + positions(root, "junction"@) + positions(root, "no_connect"@)
    } else {
        anchors_upto(c, root, (n - 1) as nat) + c.instances@[n - 1].pins@
    }
}

/// All points that hold a wire's end.
pub open spec fn anchors(c: Connections, root: crate::sexp::Sexp) -> Seq<Point> {
    anchors_upto(c, root, c.instances@.len())
}

fn copy_points(from: &Vec<Point>, to: &mut Vec<Point>)
    requires
        wf_places(from@),
        wf_places(old(to)@),
    ensures
        final(to)@ == old(to)@ + from@,
        wf_places(final(to)@),
{
    let ghost before = to@;
    let mut i: usize = 0;
    while i < from.len()
        invariant
            i <= from@.len(),
            wf_places(from@),
            wf_places(to@),
            to@ =~= before + from@.take(i as int),
        decreases from@.len() - i,
    {
        to.push(from[i]);
        i = i + 1;
    }
    assert(from@.take(i as int) =~= from@);
}

fn anchors_of(c: &Connections, junctions: &Vec<Point>, no_connects: &Vec<Point>, root: Ghost<
    crate::sexp::Sexp,
>) -> (r: Vec<Point>)
    requires
        c.wf(),
        wf_places(junctions@),
        wf_places(no_connects@),
        junctions@ == positions(root@, "junction"@),
        no_connects@ == positions(root@, "no_connect"@),
    ensures
        r@ == anchors(*c, root@),
{
    let mut r: Vec<Point> = Vec::new();
    copy_points(&c.labels, &mut r);
    copy_points(junctions, &mut r);
    copy_points(no_connects, &mut r);
    assert(r@ =~= anchors_upto(*c, root@, 0));
    let mut i: usize = 0;
    while i < c.instances.len()
        invariant
            i <= c.instances@.len(),
            c.wf(),
            wf_places(r@),
            r@ == anchors_upto(*c, root@, i as nat),
        decreases c.instances@.len() - i,
    {
        assert(wf_places(c.instances@[i as int].pins@));
        copy_points(&c.instances[i].pins, &mut r);
        i = i + 1;
    }
    r
}

/// The no-connect markers among the first `n` that a wire is attached to.
pub open spec fn marked_reports<S: Fn(Point, Segment) -> bool>(
    on: S,
    markers: Seq<Point>,
    wires: Seq<Segment>,
    n: nat,
) -> Seq<Report>
    decreases n,
{
    if n == 0 {
        Seq::empty()
    } else {
        let before = marked_reports(on, markers, wires, (n - 1) as nat);
        let p = markers[n - 1];
        if any_on(on, p, wires) {
            before.push(
                Report {
                    kind: ConnectivityDiagnosticKind::ConnectedNoConnect,
                    point: p,
                    message: "No-connect marker at "@ + crate::geometry::place_text(p)
                        + " is attached to a wire"@,
                },
            )
        } else {
            before
        }
    }
}

fn report(
    out: &mut Vec<ConnectivityDiagnostic>,
    kind: ConnectivityDiagnosticKind,
    point: Point,
    message: String,
)
    ensures
        reports(final(out)@) == reports(old(out)@).push(
            Report { kind, point, message: message@ },
        ),
{
    let ghost before = reports(out@);
    let ghost added = Report { kind, point, message: message@ };
    out.push(ConnectivityDiagnostic { kind, point, message });
    assert(reports(out@) =~= before.push(added));
}

fn report_marked<S: Fn(Point, Segment) -> bool + Copy>(
    on: S,
    markers: &Vec<Point>,
    wires: &Vec<Segment>,
    out: &mut Vec<ConnectivityDiagnostic>,
)
    requires
        is_test(on),
        wf_places(markers@),
    ensures
        reports(final(out)@) == reports(old(out)@) + marked_reports(
            on,
            markers@,
            wires@,
            markers@.len(),
        ),
{
    let ghost before = reports(out@);
    let mut i: usize = 0;
    assert(before + Seq::<Report>::empty() =~= before);
    while i < markers.len()
        invariant
            i <= markers@.len(),
            is_test(on),
            wf_places(markers@),
            reports(out@) == before + marked_reports(on, markers@, wires@, i as nat),
        decreases markers@.len() - i,
    {
        let p = markers[i];
        if is_on_any(on, p, wires, None) {
            let place = format_place(p);
            let message = crate::text::joined3(
                "No-connect marker at ",
                place.as_str(),
                " is attached to a wire",
            );
            let ghost held = reports(out@);
            report(out, ConnectivityDiagnosticKind::ConnectedNoConnect, p, message);
            proof {
                assert(reports(out@) =~= before + marked_reports(
                    on,
                    markers@,
                    wires@,
                    (i + 1) as nat,
                ));
            }
        }
        i = i + 1;
    }
}

/// A reference that names a symbol: it is there, and its number is not open.
pub open spec fn annotated(reference: Seq<char>) -> bool {
    reference.len() > 0 && !crate::text::ends(reference, "?"@)
}

/// Before the symbol at `n`, the last one with the reference `name` that names it.
pub open spec fn earlier(instances: Seq<Instance>, name: Seq<char>, n: nat) -> Option<Point>
    decreases n,
{
    if n == 0 {
        None
    } else if instances[n - 1].reference@ == name && annotated(name) {
        Some(instances[n - 1].point)
    } else {
        earlier(instances, name, (n - 1) as nat)
    }
}

/// The references among the first `n` symbols that an earlier symbol has too.
pub open spec fn reference_reports(instances: Seq<Instance>, n: nat) -> Seq<Report>
    decreases n,
{
    if n == 0 {
        Seq::empty()
    } else {
        let before = reference_reports(instances, (n - 1) as nat);
        let name = instances[n - 1].reference@;
        let p = instances[n - 1].point;
        match earlier(instances, name, (n - 1) as nat) {
            Some(first) => before.push(
                Report {
                    kind: ConnectivityDiagnosticKind::DuplicateReference,
                    point: p,
                    message: "Duplicate reference "@ + name + " at "@
                        + crate::geometry::place_text(p) + "; first at "@
                        + crate::geometry::place_text(first),
                },
            ),
            None => before,
        }
    }
}

fn report_references(instances: &Vec<Instance>, out: &mut Vec<ConnectivityDiagnostic>)
    requires
        forall|i: int| 0 <= i < instances@.len() ==> wf_place((#[trigger] instances@[i]).point),
    ensures
        reports(final(out)@) == reports(old(out)@) + reference_reports(
            instances@,
            instances@.len(),
        ),
{
    let ghost before = reports(out@);
    let mut i: usize = 0;
    assert(before + Seq::<Report>::empty() =~= before);
    while i < instances.len()
        invariant
            i <= instances@.len(),
            forall|i: int|
                0 <= i < instances@.len() ==> wf_place((#[trigger] instances@[i]).point),
            reports(out@) == before + reference_reports(instances@, i as nat),
        decreases instances@.len() - i,
    {
        let name = instances[i].reference.as_str();
        let p = instances[i].point;
        let mut first: Option<Point> = None;
        if !name.is_empty() && !ends_with(name, "?") {
            let mut k: usize = i;
            while k > 0 && first.is_none()
                invariant
                    k <= i < instances@.len(),
                    annotated(name@),
                    forall|i: int|
                        0 <= i < instances@.len() ==> wf_place((#[trigger] instances@[i]).point),
                    first is None ==> earlier(instances@, name@, i as nat) == earlier(
                        instances@,
                        name@,
                        k as nat,
                    ),
                    first is Some ==> earlier(instances@, name@, i as nat) == first && wf_place(
                        first->0,
                    ),
                decreases k,
            {
                k = k - 1;
                if same(instances[k].reference.as_str(), name) {
                    first = Some(instances[k].point);
                }
            }
        } else {
            proof {
                lemma_open_reference(instances@, name@, i as nat);
            }
        }
        match first {
            Some(first) => {
                let place = format_place(p);
                let other = format_place(first);
                let mut message = crate::text::joined3("Duplicate reference ", name, " at ");
                message.append(place.as_str());
                message.append("; first at ");
                message.append(other.as_str());
                report(out, ConnectivityDiagnosticKind::DuplicateReference, p, message);
                proof {
                    assert(reports(out@) =~= before + reference_reports(
                        instances@,
                        (i + 1) as nat,
                    ));
                }
            },
            None => {},
        }
        i = i + 1;
    }
}

proof fn lemma_open_reference(instances: Seq<Instance>, name: Seq<char>, n: nat)
    requires
        !annotated(name),
    ensures
        earlier(instances, name, n) is None,
    decreases n,
{
    if n > 0 {
        lemma_open_reference(instances, name, (n - 1) as nat);
    }
}

/// 0.01 mm, within which two places count as one.
pub open spec fn tolerance() -> Double {
    Double { negative: false, mantissa: 0x14_7ae1_47ae_147b, exponent: (-59) as i64 }
}

/// The cell of a grid of that width that a point is nearest to.
pub open spec fn cell(p: Point) -> (Double, Double) {
    (p.x.spec_quotient(tolerance()).spec_round(), p.y.spec_quotient(tolerance()).spec_round())
}

/// The end of a wire that is looked at `k`-th: each wire's start, then its end.
pub open spec fn wire_end(wires: Seq<Segment>, k: int) -> Point {
    if k % 2 == 0 {
        wires[k / 2].start
    } else {
        wires[k / 2].end
    }
}

/// The wire end that is looked at `k`-th is held by nothing.
pub open spec fn loose<N: Fn(Point, Point) -> bool, S: Fn(Point, Segment) -> bool>(
    near: N,
    on: S,
    wires: Seq<Segment>,
    held: Seq<Point>,
    k: int,
) -> bool {
    let p = wire_end(wires, k);
    !any_near(near, p, held) && !any_other_on(on, p, wires, k / 2)
}

/// Which of the first `n` wire ends are reported: the loose ones, one for each cell.
pub open spec fn dangling<N: Fn(Point, Point) -> bool, S: Fn(Point, Segment) -> bool>(
    near: N,
    on: S,
    wires: Seq<Segment>,
    held: Seq<Point>,
    n: nat,
) -> Seq<Point>
    decreases n,
{
    if n == 0 {
        Seq::empty()
    } else {
        let before = dangling(near, on, wires, held, (n - 1) as nat);
        let p = wire_end(wires, n - 1);
        if loose(near, on, wires, held, n - 1) && !(exists|i: int|
            0 <= i < before.len() && cell(#[trigger] before[i]) == cell(p)) {
            before.push(p)
        } else {
            before
        }
    }
}

/// The report of a loose wire end.
pub open spec fn dangling_report(p: Point) -> Report {
    Report {
        kind: ConnectivityDiagnosticKind::DanglingWire,
        point: p,
        message: "Dangling wire end at "@ + crate::geometry::place_text(p),
    }
}

fn cell_of(p: Point) -> (r: (Double, Double))
    requires
        wf_place(p),
    ensures
        r == cell(p),
{
    let width = Double { negative: false, mantissa: 0x14_7ae1_47ae_147b, exponent: -59 };
    (p.x.divided_by(width).rounded_away(), p.y.divided_by(width).rounded_away())
}

fn report_dangling<
    N: Fn(Point, Point) -> bool + Copy,
    S: Fn(Point, Segment) -> bool + Copy,
>(
    near: N,
    on: S,
    wires: &Vec<Segment>,
    held: &Vec<Point>,
    out: &mut Vec<ConnectivityDiagnostic>,
)
    requires
        is_test(near),
        is_test(on),
        wf_segments(wires@),
    ensures
        reports(final(out)@) == reports(old(out)@) + dangling(
            near,
            on,
            wires@,
            held@,
            2 * wires@.len(),
        ).map_values(|p: Point| dangling_report(p)),
{
    let ghost before = reports(out@);
    let ghost empty: Seq<Point> = Seq::empty();
    let mut cells: Vec<(Double, Double)> = Vec::new();
    let mut i: usize = 0;
    assert(before + empty.map_values(|p: Point| dangling_report(p)) =~= before);
    while i < wires.len()
        invariant
            i <= wires@.len(),
            is_test(near),
            is_test(on),
            wf_segments(wires@),
            cells@ == dangling(near, on, wires@, held@, 2 * i as nat).map_values(
                |p: Point| cell(p),
            ),
            reports(out@) == before + dangling(near, on, wires@, held@, 2 * i as nat).map_values(
                |p: Point| dangling_report(p),
            ),
        decreases wires@.len() - i,
    {
        let ghost n = 2 * i as nat;
        let wire = wires[i];
        report_end(near, on, wires, held, i, wire.start, Ghost(n), &mut cells, out, Ghost(before));
        report_end(near, on, wires, held, i, wire.end, Ghost(n + 1), &mut cells, out, Ghost(before));
        i = i + 1;
    }
}

fn report_end<N: Fn(Point, Point) -> bool + Copy, S: Fn(Point, Segment) -> bool + Copy>(
    near: N,
    on: S,
    wires: &Vec<Segment>,
    held: &Vec<Point>,
    own: usize,
    p: Point,
    n: Ghost<nat>,
    cells: &mut Vec<(Double, Double)>,
    out: &mut Vec<ConnectivityDiagnostic>,
    before: Ghost<Seq<Report>>,
)
    requires
        is_test(near),
        is_test(on),
        wf_place(p),
        n@ / 2 == own,
        p == wire_end(wires@, n@ as int),
        old(cells)@ == dangling(near, on, wires@, held@, n@).map_values(|p: Point| cell(p)),
        reports(old(out)@) == before@ + dangling(near, on, wires@, held@, n@).map_values(
            |p: Point| dangling_report(p),
        ),
    ensures
        final(cells)@ == dangling(near, on, wires@, held@, n@ + 1).map_values(|p: Point| cell(p)),
        reports(final(out)@) == before@ + dangling(near, on, wires@, held@, n@ + 1).map_values(
            |p: Point| dangling_report(p),
        ),
{
    let ghost found = dangling(near, on, wires@, held@, n@);
    if is_near_any(near, p, held) || is_on_any(on, p, wires, Some(own)) {
        return ;
    }
    let here = cell_of(p);
    let mut k: usize = 0;
    while k < cells.len()
        invariant
            k <= cells@.len(),
            cells@ == old(cells)@,
            cells@ == found.map_values(|p: Point| cell(p)),
            here == cell(p),
            found == dangling(near, on, wires@, held@, n@),
            loose(near, on, wires@, held@, n@ as int),
            p == wire_end(wires@, n@ as int),
            forall|i: int| 0 <= i < k ==> cell(#[trigger] found[i]) != here,
            reports(out@) == before@ + found.map_values(|p: Point| dangling_report(p)),
        decreases cells@.len() - k,
    {
        if cells[k].0 == here.0 && cells[k].1 == here.1 {
            assert(cell(found[k as int]) == here);
            return ;
        }
        assert(cells@[k as int] == cell(found[k as int]));
        k = k + 1;
    }
    cells.push(here);
    let place = format_place(p);
    let message = crate::text::joined("Dangling wire end at ", place.as_str());
    report(out, ConnectivityDiagnosticKind::DanglingWire, p, message);
    proof {
        let more = found.push(p);
        assert(dangling(near, on, wires@, held@, n@ + 1) == more);
        assert(cells@ =~= more.map_values(|p: Point| cell(p)));
        assert(reports(out@) =~= before@ + more.map_values(|p: Point| dangling_report(p)));
    }
}

/// The branching points among the first `n` that have no junction dot.
pub open spec fn junction_reports<N: Fn(Point, Point) -> bool>(
    near: N,
    branches: Seq<Point>,
    junctions: Seq<Point>,
    n: nat,
) -> Seq<Report>
    decreases n,
{
    if n == 0 {
        Seq::empty()
    } else {
        let before = junction_reports(near, branches, junctions, (n - 1) as nat);
        let p = branches[n - 1];
        if any_near(near, p, junctions) {
            before
        } else {
            before.push(
                Report {
                    kind: ConnectivityDiagnosticKind::MissingJunction,
                    point: p,
                    message: "T-junction at "@ + crate::geometry::place_text(p)
                        + " needs a junction dot"@,
                },
            )
        }
    }
}

fn report_junctions<N: Fn(Point, Point) -> bool + Copy>(
    near: N,
    branches: &Vec<Point>,
    junctions: &Vec<Point>,
    out: &mut Vec<ConnectivityDiagnostic>,
)
    requires
        is_test(near),
        wf_places(branches@),
    ensures
        reports(final(out)@) == reports(old(out)@) + junction_reports(
            near,
            branches@,
            junctions@,
            branches@.len(),
        ),
{
    let ghost before = reports(out@);
    let mut i: usize = 0;
    assert(before + Seq::<Report>::empty() =~= before);
    while i < branches.len()
        invariant
            i <= branches@.len(),
            is_test(near),
            wf_places(branches@),
            reports(out@) == before + junction_reports(near, branches@, junctions@, i as nat),
        decreases branches@.len() - i,
    {
        let p = branches[i];
        if !is_near_any(near, p, junctions) {
            let place = format_place(p);
            let message = crate::text::joined3(
                "T-junction at ",
                place.as_str(),
                " needs a junction dot",
            );
            report(out, ConnectivityDiagnosticKind::MissingJunction, p, message);
            proof {
                assert(reports(out@) =~= before + junction_reports(
                    near,
                    branches@,
                    junctions@,
                    (i + 1) as nat,
                ));
            }
        }
        i = i + 1;
    }
}

/// The number, or zero where there is none.
pub open spec fn or_zero(n: Option<Double>) -> Double {
    match n {
        Some(n) => n,
        None => Double::spec_zero(),
    }
}

/// The two ends of a bus entry.
pub open spec fn entry_ends(entry: crate::sexp::Sexp) -> Option<(Point, Point)> {
    match (entry.at_point(), entry.first("size"@)) {
        (Some(start), Some(size)) => Some(
            (
                start,
                Point {
                    x: start.x.spec_sum(or_zero(size.part_number(1))),
                    y: start.y.spec_sum(or_zero(size.part_number(2))),
                },
            ),
        ),
        _ => None,
    }
}

/// A bus entry that leads from a bus to a wire.
pub open spec fn bridges<S: Fn(Point, Segment) -> bool>(
    on: S,
    ends: (Point, Point),
    wires: Seq<Segment>,
    buses: Seq<Segment>,
) -> bool {
    ||| any_on(on, ends.0, buses) && any_on(on, ends.1, wires)
    ||| any_on(on, ends.1, buses) && any_on(on, ends.0, wires)
}

/// The bus entries among the first `n` that do not lead from a bus to a wire.
pub open spec fn entry_reports<S: Fn(Point, Segment) -> bool>(
    on: S,
    entries: Seq<crate::sexp::Sexp>,
    wires: Seq<Segment>,
    buses: Seq<Segment>,
    n: nat,
) -> Seq<Report>
    decreases n,
{
    if n == 0 {
        Seq::empty()
    } else {
        let before = entry_reports(on, entries, wires, buses, (n - 1) as nat);
        match entry_ends(entries[n - 1]) {
            Some(ends) => if bridges(on, ends, wires, buses) {
                before
            } else {
                before.push(
                    Report {
                        kind: ConnectivityDiagnosticKind::UnconnectedBusEntry,
                        point: ends.0,
                        message: "Bus entry at "@ + crate::geometry::place_text(ends.0)
                            + " does not bridge a bus and wire"@,
                    },
                )
            },
            None => before,
        }
    }
}

/// The two ends of a bus entry.
pub fn bus_entry_ends(entry: &Node) -> (r: Option<(Point, Point)>)
    requires
        entry.wf(),
    ensures
        r == entry_ends(entry@),
        r matches Some(ends) ==> wf_place(ends.0),
{
    let start = match at_point(entry) {
        Some(start) => start,
        None => {
            return None;
        },
    };
    proof {
        lemma_read_place(*entry, start);
    }
    let size = match entry.find("size") {
        Some(size) => size,
        None => {
            return None;
        },
    };
    let none = Double { negative: false, mantissa: 0, exponent: 0 };
    let dx = match size.get_number(1) {
        Some(dx) => dx,
        None => none,
    };
    let dy = match size.get_number(2) {
        Some(dy) => dy,
        None => none,
    };
    Some((start, Point { x: start.x.plus(dx), y: start.y.plus(dy) }))
}

fn report_entries<S: Fn(Point, Segment) -> bool + Copy>(
    on: S,
    root: &Node,
    wires: &Vec<Segment>,
    buses: &Vec<Segment>,
    out: &mut Vec<ConnectivityDiagnostic>,
)
    requires
        is_test(on),
        root.wf(),
    ensures
        reports(final(out)@) == reports(old(out)@) + entry_reports(
            on,
            root@.tagged("bus_entry"@),
            wires@,
            buses@,
            root@.tagged("bus_entry"@).len(),
        ),
{
    let ghost before = reports(out@);
    let entries = root.find_all("bus_entry");
    let ghost all = root@.tagged("bus_entry"@);
    let mut i: usize = 0;
    assert(before + Seq::<Report>::empty() =~= before);
    while i < entries.len()
        invariant
            i <= entries@.len(),
            is_test(on),
            crate::sexp::ref_sexps(entries@) == all,
            forall|i: int| 0 <= i < entries@.len() ==> (#[trigger] entries@[i]).wf(),
            reports(out@) == before + entry_reports(on, all, wires@, buses@, i as nat),
        decreases entries@.len() - i,
    {
        assert(all[i as int] == entries@[i as int]@);
        match bus_entry_ends(entries[i]) {
            Some((start, end)) => {
                let start_bus = is_on_any(on, start, buses, None);
                let end_bus = is_on_any(on, end, buses, None);
                let start_wire = is_on_any(on, start, wires, None);
                let end_wire = is_on_any(on, end, wires, None);
                if !((start_bus && end_wire) || (end_bus && start_wire)) {
                    let place = format_place(start);
                    let message = crate::text::joined3(
                        "Bus entry at ",
                        place.as_str(),
                        " does not bridge a bus and wire",
                    );
                    report(out, ConnectivityDiagnosticKind::UnconnectedBusEntry, start, message);
                    proof {
                        assert(reports(out@) =~= before + entry_reports(
                            on,
                            all,
                            wires@,
                            buses@,
                            (i + 1) as nat,
                        ));
                    }
                }
            },
            None => {},
        }
        i = i + 1;
    }
}

/// The page origin.
pub open spec fn origin() -> Point {
    Point { x: Double::spec_zero(), y: Double::spec_zero() }
}

/// Where a sheet stands, the page origin where that is not said.
pub open spec fn sheet_point(sheet: crate::sexp::Sexp) -> Point {
    match sheet.at_point() {
        Some(p) => p,
        None => origin(),
    }
}

/// The name of a sheet, unless it is empty.
pub open spec fn sheet_name(sheet: crate::sexp::Sexp) -> Option<Seq<char>> {
    match crate::readers::sheet_value(sheet, "Sheetname"@) {
        Some(name) => if name.len() > 0 {
            Some(name)
        } else {
            None
        },
        None => None,
    }
}

/// Before the sheet at `n`, the last one with the given name.
pub open spec fn earlier_sheet(sheets: Seq<crate::sexp::Sexp>, name: Seq<char>, n: nat) -> Option<
    Point,
>
    decreases n,
{
    if n == 0 {
        None
    } else if sheet_name(sheets[n - 1]) == Some(name) {
        Some(sheet_point(sheets[n - 1]))
    } else {
        earlier_sheet(sheets, name, (n - 1) as nat)
    }
}

/// What is said of the name of the sheet at `i`.
pub open spec fn name_reports(sheets: Seq<crate::sexp::Sexp>, i: int) -> Seq<Report> {
    match sheet_name(sheets[i]) {
        None => Seq::empty(),
        Some(name) => match earlier_sheet(sheets, name, i as nat) {
            None => Seq::empty(),
            Some(first) => seq![
                Report {
                    kind: ConnectivityDiagnosticKind::DuplicateSheetName,
                    point: sheet_point(sheets[i]),
                    message: "Duplicate hierarchical sheet name "@ + name + " at "@
                        + crate::geometry::place_text(sheet_point(sheets[i])) + "; first at "@
                        + crate::geometry::place_text(first),
                },
            ],
        },
    }
}

/// One of the first `n` pins has the name.
pub open spec fn pin_named(pins: Seq<crate::sexp::Sexp>, name: Seq<char>, n: nat) -> bool {
    exists|k: int| 0 <= k < n && (#[trigger] pins[k]).part_text(1) == Some(name)
}

/// The pins among the first `n` of a sheet whose name an earlier one has.
pub open spec fn pin_reports(pins: Seq<crate::sexp::Sexp>, at: Point, n: nat) -> Seq<Report>
    decreases n,
{
    if n == 0 {
        Seq::empty()
    } else {
        let before = pin_reports(pins, at, (n - 1) as nat);
        match pins[n - 1].part_text(1) {
            Some(name) => if pin_named(pins, name, (n - 1) as nat) {
                before.push(
                    Report {
                        kind: ConnectivityDiagnosticKind::DuplicateSheetPin,
                        point: match pins[n - 1].at_point() {
                            Some(p) => p,
                            None => at,
                        },
                        message: "Hierarchical sheet contains duplicate pin "@ + name,
                    },
                )
            } else {
                before
            },
            None => before,
        }
    }
}

/// A visible name or file of a sheet that has no position.
pub open spec fn unpositioned(field: crate::sexp::Sexp) -> bool {
    &&& field.part_text(1) == Some("Sheetname"@) || field.part_text(1) == Some("Sheetfile"@)
    &&& !field.hidden()
    &&& field.at_point() is None
}

/// The visible fields among the first `n` of a sheet that have no position.
pub open spec fn field_reports(fields: Seq<crate::sexp::Sexp>, n: nat) -> Seq<Report>
    decreases n,
{
    if n == 0 {
        Seq::empty()
    } else {
        let before = field_reports(fields, (n - 1) as nat);
        if unpositioned(fields[n - 1]) {
            before.push(
                Report {
                    kind: ConnectivityDiagnosticKind::UnpositionedSheetField,
                    point: origin(),
                    message: "Visible "@ + fields[n - 1].part_text(1)->0
                        + " has no position; KiCad plots it at the page origin"@,
                },
            )
        } else {
            before
        }
    }
}

/// What is said of the sheet at `i`.
pub open spec fn one_sheet(sheets: Seq<crate::sexp::Sexp>, i: int) -> Seq<Report> {
    let pins = sheets[i].tagged("pin"@);
    let fields = sheets[i].properties();
    name_reports(sheets, i) + pin_reports(pins, sheet_point(sheets[i]), pins.len())
        + field_reports(fields, fields.len())
}

/// What is said of the first `n` sheets.
pub open spec fn sheet_reports(sheets: Seq<crate::sexp::Sexp>, n: nat) -> Seq<Report>
    decreases n,
{
    if n == 0 {
        Seq::empty()
    } else {
        sheet_reports(sheets, (n - 1) as nat) + one_sheet(sheets, n - 1)
    }
}

fn point_of_sheet(sheet: &Node) -> (r: Point)
    requires
        sheet.wf(),
    ensures
        r == sheet_point(sheet@),
        wf_place(r),
{
    match at_point(sheet) {
        Some(p) => {
            proof {
                lemma_read_place(*sheet, p);
            }
            p
        },
        None => {
            let zero = Double { negative: false, mantissa: 0, exponent: 0 };
            Point { x: zero, y: zero }
        },
    }
}

fn name_of_sheet(sheet: &Node) -> (r: Option<&str>)
    ensures
        crate::sexp::ref_view(r) == sheet_name(sheet@),
{
    match sheet_property(sheet, "Sheetname") {
        Some(name) => {
            if name.is_empty() {
                None
            } else {
                Some(name)
            }
        },
        None => None,
    }
}

fn report_name(sheets: &Vec<&Node>, i: usize, out: &mut Vec<ConnectivityDiagnostic>)
    requires
        i < sheets@.len(),
        forall|i: int| 0 <= i < sheets@.len() ==> (#[trigger] sheets@[i]).wf(),
    ensures
        reports(final(out)@) == reports(old(out)@) + name_reports(
            crate::sexp::ref_sexps(sheets@),
            i as int,
        ),
{
    let ghost before = reports(out@);
    let ghost all = crate::sexp::ref_sexps(sheets@);
    assert(before + Seq::<Report>::empty() =~= before);
    let name = match name_of_sheet(sheets[i]) {
        Some(name) => name,
        None => {
            return ;
        },
    };
    let mut first: Option<Point> = None;
    let mut k: usize = i;
    while k > 0 && first.is_none()
        invariant
            k <= i < sheets@.len(),
            all == crate::sexp::ref_sexps(sheets@),
            forall|i: int| 0 <= i < sheets@.len() ==> (#[trigger] sheets@[i]).wf(),
            first is None ==> earlier_sheet(all, name@, i as nat) == earlier_sheet(
                all,
                name@,
                k as nat,
            ),
            first is Some ==> earlier_sheet(all, name@, i as nat) == first && wf_place(first->0),
        decreases k,
    {
        k = k - 1;
        assert(all[k as int] == sheets@[k as int]@);
        let same_name: bool = match name_of_sheet(sheets[k]) {
            Some(other) => same(other, name),
            None => false,
        };
        if same_name {
            first = Some(point_of_sheet(sheets[k]));
        }
    }
    match first {
        Some(first) => {
            let p = point_of_sheet(sheets[i]);
            let place = format_place(p);
            let other = format_place(first);
            let mut message = crate::text::joined3(
                "Duplicate hierarchical sheet name ",
                name,
                " at ",
            );
            message.append(place.as_str());
            message.append("; first at ");
            message.append(other.as_str());
            report(out, ConnectivityDiagnosticKind::DuplicateSheetName, p, message);
            proof {
                assert(reports(out@) =~= before + name_reports(all, i as int));
            }
        },
        None => {},
    }
}

fn report_pins(sheet: &Node, out: &mut Vec<ConnectivityDiagnostic>)
    requires
        sheet.wf(),
    ensures
        reports(final(out)@) == reports(old(out)@) + pin_reports(
            sheet@.tagged("pin"@),
            sheet_point(sheet@),
            sheet@.tagged("pin"@).len(),
        ),
{
    let ghost before = reports(out@);
    let at = point_of_sheet(sheet);
    let pins = sheet.find_all("pin");
    let ghost all = sheet@.tagged("pin"@);
    let mut i: usize = 0;
    assert(before + Seq::<Report>::empty() =~= before);
    while i < pins.len()
        invariant
            i <= pins@.len(),
            crate::sexp::ref_sexps(pins@) == all,
            reports(out@) == before + pin_reports(all, at, i as nat),
        decreases pins@.len() - i,
    {
        assert(all[i as int] == pins@[i as int]@);
        match pins[i].get_str(1) {
            Some(name) => {
                let mut k: usize = 0;
                let mut seen: bool = false;
                while k < i && !seen
                    invariant
                        k <= i < pins@.len(),
                        crate::sexp::ref_sexps(pins@) == all,
                        seen ==> pin_named(all, name@, i as nat),
                        !seen ==> forall|m: int|
                            0 <= m < k ==> (#[trigger] all[m]).part_text(1) != Some(name@),
                    decreases i - k + if seen { 0int } else { 1int },
                {
                    assert(all[k as int] == pins@[k as int]@);
                    match pins[k].get_str(1) {
                        Some(other) => {
                            seen = same(other, name);
                        },
                        None => {},
                    }
                    k = k + 1;
                }
                if seen {
                    let p = match at_point(pins[i]) {
                        Some(p) => p,
                        None => at,
                    };
                    let message = crate::text::joined(
                        "Hierarchical sheet contains duplicate pin ",
                        name,
                    );
                    report(out, ConnectivityDiagnosticKind::DuplicateSheetPin, p, message);
                    proof {
                        assert(reports(out@) =~= before + pin_reports(all, at, (i + 1) as nat));
                    }
                }
            },
            None => {},
        }
        i = i + 1;
    }
}

fn report_fields(sheet: &Node, out: &mut Vec<ConnectivityDiagnostic>)
    ensures
        reports(final(out)@) == reports(old(out)@) + field_reports(
            sheet@.properties(),
            sheet@.properties().len(),
        ),
{
    let ghost before = reports(out@);
    let fields = sheet.find_all("property");
    let ghost all = sheet@.properties();
    let mut i: usize = 0;
    assert(before + Seq::<Report>::empty() =~= before);
    while i < fields.len()
        invariant
            i <= fields@.len(),
            crate::sexp::ref_sexps(fields@) == all,
            reports(out@) == before + field_reports(all, i as nat),
        decreases fields@.len() - i,
    {
        assert(all[i as int] == fields@[i as int]@);
        let field = fields[i];
        match field.get_str(1) {
            Some(name) => {
                if (same(name, "Sheetname") || same(name, "Sheetfile")) && !is_hidden(field)
                    && at_point(field).is_none() {
                    let zero = Double { negative: false, mantissa: 0, exponent: 0 };
                    let message = crate::text::joined3(
                        "Visible ",
                        name,
                        " has no position; KiCad plots it at the page origin",
                    );
                    report(
                        out,
                        ConnectivityDiagnosticKind::UnpositionedSheetField,
                        Point { x: zero, y: zero },
                        message,
                    );
                    proof {
                        assert(reports(out@) =~= before + field_reports(all, (i + 1) as nat));
                    }
                }
            },
            None => {},
        }
        i = i + 1;
    }
}

/// All that is reported of a schematic's connections: markers on wires, references that occur
/// twice, loose wire ends, missing dots, bus entries that lead nowhere, and sheets, in this
/// order.
pub open spec fn connectivity<N: Fn(Point, Point) -> bool, S: Fn(Point, Segment) -> bool>(
    root: crate::sexp::Sexp,
    c: Connections,
    near: N,
    on: S,
) -> Seq<Report> {
    let markers = positions(root, "no_connect"@);
    let entries = root.tagged("bus_entry"@);
    let sheets = root.tagged("sheet"@);
    marked_reports(on, markers, c.wires@, markers.len()) + reference_reports(
        c.instances@,
        c.instances@.len(),
    ) + dangling(near, on, c.wires@, anchors(c, root), 2 * c.wires@.len()).map_values(
        |p: Point| dangling_report(p),
    ) + junction_reports(near, c.t_junctions@, positions(root, "junction"@), c.t_junctions@.len())
        + entry_reports(on, entries, c.wires@, c.buses@, entries.len()) + sheet_reports(
        sheets,
        sheets.len(),
    )
}

/// Judges the connections of a schematic. `near` says whether two points count as one, `on`
/// whether a point lies on a piece of wire.
pub fn analyze_connectivity<
    N: Fn(Point, Point) -> bool + Copy,
    S: Fn(Point, Segment) -> bool + Copy,
>(root: &Node, c: &Connections, near: N, on: S) -> (r: Vec<ConnectivityDiagnostic>)
    requires
        root.wf(),
        c.wf(),
        is_test(near),
        is_test(on),
    ensures
        reports(r@) == connectivity(root@, *c, near, on),
{
    let junctions = positions_of(root, "junction");
    let no_connects = positions_of(root, "no_connect");
    let held = anchors_of(c, &junctions, &no_connects, Ghost(root@));
    let mut out: Vec<ConnectivityDiagnostic> = Vec::new();
    report_marked(on, &no_connects, &c.wires, &mut out);
    report_references(&c.instances, &mut out);
    report_dangling(near, on, &c.wires, &held, &mut out);
    report_junctions(near, &c.t_junctions, &junctions, &mut out);
    report_entries(on, root, &c.wires, &c.buses, &mut out);
    let ghost before = reports(out@);
    let sheets = root.find_all("sheet");
    let ghost all = root@.tagged("sheet"@);
    let mut i: usize = 0;
    assert(before + Seq::<Report>::empty() =~= before);
    while i < sheets.len()
        invariant
            i <= sheets@.len(),
            crate::sexp::ref_sexps(sheets@) == all,
            forall|i: int| 0 <= i < sheets@.len() ==> (#[trigger] sheets@[i]).wf(),
            reports(out@) == before + sheet_reports(all, i as nat),
        decreases sheets@.len() - i,
    {
        assert(all[i as int] == sheets@[i as int]@);
        report_name(&sheets, i, &mut out);
        report_pins(sheets[i], &mut out);
        report_fields(sheets[i], &mut out);
        proof {
            assert(reports(out@) =~= before + sheet_reports(all, (i + 1) as nat));
        }
        i = i + 1;
    }
    proof {
        assert(reports(out@) =~= connectivity(root@, *c, near, on));
    }
    out
}

} // verus!
