//! What is painted on the page and on the window.

use crate::attachment::ConnectedWireMove;
use crate::connectivity::ConnectivityDiagnostic;
use crate::dialogs::WireDraft;
use crate::double::Double;
use crate::encode::Ink;
use crate::encode::Traced;
use crate::frame::Layered;
use crate::frame::PageView;
use crate::geometry::Point;
use crate::paint::Form;
use crate::paint::Painted;
use crate::primitives::Shape;
use crate::strip::SheetCard;
use crate::theme::Color;
use crate::theme::Palette;
use crate::window::WindowView;
use vstd::prelude::*;

verus! {

/// `b` holds all that `a` holds.
#[verifier::opaque]
pub open spec fn all_stays<T>(a: Seq<T>, b: Seq<T>) -> bool {
    forall|x: T| #[trigger] a.contains(x) ==> b.contains(x)
}

proof fn lemma_same<T>(a: Seq<T>)
    ensures
        all_stays(a, a),
{
    reveal(all_stays);
}

proof fn lemma_pushed<T>(a: Seq<T>, b: Seq<T>, y: T)
    requires
        all_stays(a, b),
    ensures
        all_stays(a, b.push(y)),
        b.push(y).contains(y),
{
    reveal(all_stays);
    assert forall|x: T| #[trigger] a.contains(x) implies b.push(y).contains(x) by {
        crate::sequences::pushed_holds(b, y, x);
    }
    crate::sequences::pushed_holds(b, y, y);
}

proof fn lemma_chained<T>(a: Seq<T>, b: Seq<T>, c: Seq<T>)
    requires
        all_stays(a, b),
        all_stays(b, c),
    ensures
        all_stays(a, c),
{
    reveal(all_stays);
}

proof fn lemma_still<T>(a: Seq<T>, b: Seq<T>, x: T)
    requires
        all_stays(a, b),
        a.contains(x),
    ensures
        b.contains(x),
{
    reveal(all_stays);
}

proof fn lemma_warned(
    before: Seq<(Traced, Ink)>,
    warnings: Seq<ConnectivityDiagnostic>,
    scale: Double,
    palette: Palette,
    n: nat,
)
    ensures
        all_stays(before, crate::frame::warnings_marked(before, warnings, scale, palette, n)),
        forall|i: int|
            0 <= i < n ==> rings(
                crate::frame::warnings_marked(before, warnings, scale, palette, n),
                (#[trigger] warnings[i]).point,
            ),
    decreases n,
{
    let all = crate::frame::warnings_marked(before, warnings, scale, palette, n);
    if n == 0 {
        lemma_same(before);
    } else {
        let earlier = crate::frame::warnings_marked(
            before,
            warnings,
            scale,
            palette,
            (n - 1) as nat,
        );
        lemma_warned(before, warnings, scale, palette, (n - 1) as nat);
        let w = warnings[n - 1];
        let ring = (
            Traced::Circle(w.point, crate::frame::kept_between(60, scale, 45, 175)),
            crate::frame::pen(
                crate::frame::at_least(20, scale, 10),
                crate::frame::warning_color(w.kind, palette),
            ),
        );
        let circle = earlier.push(ring);
        lemma_same(earlier);
        lemma_pushed(earlier, earlier, ring);
        lemma_same(circle);
        if w.kind == crate::connectivity::ConnectivityDiagnosticKind::MissingJunction {
            let first = all[circle.len() as int];
            let second = all[circle.len() as int + 1];
            lemma_pushed(circle, circle, first);
            lemma_pushed(circle, circle.push(first), second);
            assert(all =~= circle.push(first).push(second));
        }
        lemma_still(circle, all, ring);
        lemma_chained(earlier, circle, all);
        lemma_chained(before, earlier, all);
        assert forall|i: int| 0 <= i < n implies rings(all, (#[trigger] warnings[i]).point) by {
            if i < n - 1 {
                assert(rings(earlier, warnings[i].point));
                let k = choose|k: int|
                    0 <= k < earlier.len() && ((#[trigger] earlier[k]).0 matches Traced::Circle(
                        c,
                        _,
                    ) && c == warnings[i].point);
                lemma_still(earlier, all, earlier[k]);
                let j = choose|j: int| 0 <= j < all.len() && all[j] == earlier[k];
                assert(all[j].0 is Circle);
            } else {
                let j = choose|j: int| 0 <= j < all.len() && all[j] == ring;
                assert(all[j].0 is Circle);
            }
        }
    }
}

proof fn lemma_dragged(
    before: Seq<(Traced, Ink)>,
    wires: Seq<ConnectedWireMove>,
    dx: Double,
    dy: Double,
    palette: Palette,
    n: nat,
    i: int,
)
    requires
        0 <= n <= wires.len(),
    ensures
        all_stays(before, crate::frame::wires_dragged(before, wires, dx, dy, palette, n)),
        0 <= i < n ==> lines_up(
            crate::frame::wires_dragged(before, wires, dx, dy, palette, n),
            crate::frame::dragged_end(wires[i].start, wires[i].move_start, dx, dy),
            crate::frame::dragged_end(wires[i].end, wires[i].move_end, dx, dy),
        ),
    decreases n,
{
    let all = crate::frame::wires_dragged(before, wires, dx, dy, palette, n);
    if n == 0 {
        lemma_same(before);
    } else {
        let earlier = crate::frame::wires_dragged(before, wires, dx, dy, palette, (n - 1) as nat);
        lemma_dragged(before, wires, dx, dy, palette, (n - 1) as nat, i);
        let last = all[earlier.len() as int];
        assert(all =~= earlier.push(last));
        lemma_pushed(before, earlier, last);
        lemma_same(earlier);
        lemma_pushed(earlier, earlier, last);
        if 0 <= i < n - 1 {
            let a = crate::frame::dragged_end(wires[i].start, wires[i].move_start, dx, dy);
            let b = crate::frame::dragged_end(wires[i].end, wires[i].move_end, dx, dy);
            lemma_lines(earlier, all, a, b);
        } else if i == n - 1 {
            assert(all[earlier.len() as int].0 is Line);
        }
    }
}

proof fn lemma_lines(a: Seq<(Traced, Ink)>, b: Seq<(Traced, Ink)>, from: Point, to: Point)
    requires
        all_stays(a, b),
        lines_up(a, from, to),
    ensures
        lines_up(b, from, to),
{
    let k = choose|k: int| 0 <= k < a.len() && (#[trigger] a[k]).0 == Traced::Line(from, to);
    lemma_still(a, b, a[k]);
    let j = choose|j: int| 0 <= j < b.len() && b[j] == a[k];
    assert(b[j].0 == Traced::Line(from, to));
}

proof fn lemma_rings(a: Seq<(Traced, Ink)>, b: Seq<(Traced, Ink)>, p: Point)
    requires
        all_stays(a, b),
        rings(a, p),
    ensures
        rings(b, p),
{
    let k = choose|k: int|
        0 <= k < a.len() && ((#[trigger] a[k]).0 matches Traced::Circle(c, _) && c == p);
    lemma_still(a, b, a[k]);
    let j = choose|j: int| 0 <= j < b.len() && b[j] == a[k];
    assert(b[j].0 is Circle);
}

/// There is a circle round the point.
pub open spec fn rings(parts: Seq<(Traced, Ink)>, p: Point) -> bool {
    exists|k: int|
        0 <= k < parts.len() && ((#[trigger] parts[k]).0 matches Traced::Circle(c, _) && c == p)
}

/// There is a line from one point to the other.
pub open spec fn lines_up(parts: Seq<(Traced, Ink)>, from: Point, to: Point) -> bool {
    exists|k: int| 0 <= k < parts.len() && (#[trigger] parts[k]).0 == Traced::Line(from, to)
}

proof fn lemma_page(
    warnings: Seq<ConnectivityDiagnostic>,
    draft: Option<WireDraft>,
    wires: Seq<ConnectedWireMove>,
    delta: Option<(Double, Double)>,
    scale: Double,
    palette: Palette,
) -> (parts: (Seq<(Traced, Ink)>, Seq<(Traced, Ink)>))
    ensures
        parts.0 == crate::frame::warnings_marked(
            Seq::<(Traced, Ink)>::empty(),
            warnings,
            scale,
            palette,
            warnings.len(),
        ),
        parts.1 == (match draft {
            Some(wire) => crate::frame::drafted(parts.0, wire, scale, palette),
            None => parts.0,
        }),
        all_stays(parts.0, parts.1),
        all_stays(
            parts.1,
            crate::frame::page_marked(warnings, draft, wires, delta, scale, palette),
        ),
{
    let none = Seq::<(Traced, Ink)>::empty();
    let first = crate::frame::warnings_marked(none, warnings, scale, palette, warnings.len());
    let second = match draft {
        Some(wire) => crate::frame::drafted(first, wire, scale, palette),
        None => first,
    };
    lemma_same(first);
    lemma_same(second);
    if draft is Some {
        let n = first.len() as int;
        lemma_pushed(first, first, second[n]);
        lemma_pushed(first, first.push(second[n]), second[n + 1]);
        lemma_pushed(first, first.push(second[n]).push(second[n + 1]), second[n + 2]);
        assert(second =~= first.push(second[n]).push(second[n + 1]).push(second[n + 2]));
    }
    if let Some((dx, dy)) = delta {
        lemma_dragged(second, wires, dx, dy, palette, wires.len(), 0);
    }
    (first, second)
}

/// Every warning has a circle round the place that it speaks of.
pub proof fn warnings_are_marked_where_they_are(
    warnings: Seq<ConnectivityDiagnostic>,
    draft: Option<WireDraft>,
    wires: Seq<ConnectedWireMove>,
    delta: Option<(Double, Double)>,
    scale: Double,
    palette: Palette,
    i: int,
)
    requires
        0 <= i < warnings.len(),
    ensures
        rings(
            crate::frame::page_marked(warnings, draft, wires, delta, scale, palette),
            warnings[i].point,
        ),
{
    let none = Seq::<(Traced, Ink)>::empty();
    let page = crate::frame::page_marked(warnings, draft, wires, delta, scale, palette);
    lemma_warned(none, warnings, scale, palette, warnings.len());
    let (first, second) = lemma_page(warnings, draft, wires, delta, scale, palette);
    assert(rings(first, warnings[i].point));
    lemma_chained(first, second, page);
    lemma_rings(first, page, warnings[i].point);
}

/// The wire that is being drawn is seen from its start to the pointer, and both are marked.
pub proof fn drafts_are_seen(
    warnings: Seq<ConnectivityDiagnostic>,
    draft: WireDraft,
    wires: Seq<ConnectedWireMove>,
    delta: Option<(Double, Double)>,
    scale: Double,
    palette: Palette,
)
    ensures
        ({
            let page = crate::frame::page_marked(
                warnings,
                Some(draft),
                wires,
                delta,
                scale,
                palette,
            );
            &&& lines_up(page, draft.start, draft.current)
            &&& rings(page, draft.start)
            &&& rings(page, draft.current)
        }),
{
    let page = crate::frame::page_marked(warnings, Some(draft), wires, delta, scale, palette);
    let (first, second) = lemma_page(warnings, Some(draft), wires, delta, scale, palette);
    let n = first.len() as int;
    assert(second[n].0 == Traced::Line(draft.start, draft.current));
    assert(second[n + 1].0 is Circle);
    assert(second[n + 2].0 is Circle);
    lemma_lines(second, page, draft.start, draft.current);
    lemma_rings(second, page, draft.start);
    lemma_rings(second, page, draft.current);
}

/// While a selection is dragged, each wire that follows it is seen with the ends that follow moved
/// as far as the selection, and the other ends where they are.
pub proof fn followers_are_seen(
    warnings: Seq<ConnectivityDiagnostic>,
    draft: Option<WireDraft>,
    wires: Seq<ConnectedWireMove>,
    dx: Double,
    dy: Double,
    scale: Double,
    palette: Palette,
    i: int,
)
    requires
        0 <= i < wires.len(),
    ensures
        ({
            let moved = |p: Point| Point { x: p.x.spec_sum(dx), y: p.y.spec_sum(dy) };
            let wire = wires[i];
            let page = crate::frame::page_marked(
                warnings,
                draft,
                wires,
                Some((dx, dy)),
                scale,
                palette,
            );
            &&& wire.move_start && wire.move_end ==> lines_up(
                page,
                moved(wire.start),
                moved(wire.end),
            )
            &&& wire.move_start && !wire.move_end ==> lines_up(page, moved(wire.start), wire.end)
            &&& !wire.move_start && wire.move_end ==> lines_up(page, wire.start, moved(wire.end))
            &&& !wire.move_start && !wire.move_end ==> lines_up(page, wire.start, wire.end)
        }),
{
    let (first, second) = lemma_page(warnings, draft, wires, Some((dx, dy)), scale, palette);
    lemma_dragged(second, wires, dx, dy, palette, wires.len(), i);
}

proof fn lemma_highlighted(
    before: Seq<Layered>,
    view: PageView,
    uuids: Seq<Seq<char>>,
    palette: Palette,
    n: nat,
)
    requires
        n <= view.objects@.len(),
    ensures
        all_stays(before, crate::frame::highlighted(before, view, uuids, palette, n)),
        forall|i: int|
            0 <= i < n && uuids.contains((#[trigger] view.objects@[i]).uuid@)
                ==> crate::frame::highlighted(before, view, uuids, palette, n).contains(
                Layered::Marks(
                    crate::frame::object_frame(
                        view.primitives@,
                        view.objects@[i],
                        view.scale,
                        palette,
                    ),
                ),
            ),
    decreases n,
{
    if n == 0 {
        lemma_same(before);
    } else {
        let earlier = crate::frame::highlighted(before, view, uuids, palette, (n - 1) as nat);
        lemma_highlighted(before, view, uuids, palette, (n - 1) as nat);
        let last = Layered::Marks(
            crate::frame::object_frame(
                view.primitives@,
                view.objects@[n - 1],
                view.scale,
                palette,
            ),
        );
        lemma_pushed(before, earlier, last);
        lemma_same(earlier);
        lemma_pushed(earlier, earlier, last);
        reveal(all_stays);
    }
}

proof fn lemma_selected(before: Seq<Layered>, view: PageView, palette: Palette, n: nat, k: int)
    requires
        n <= view.selection.uuids@.len(),
    ensures
        all_stays(before, crate::frame::selected(before, view, palette, n)),
        before.len() <= crate::frame::selected(before, view, palette, n).len(),
        before.len() > 0 ==> crate::frame::selected(before, view, palette, n)[0] == before[0],
        0 <= k < n ==> match crate::selection::object_from(
            view.objects@,
            view.selection.uuids@[k]@,
            0,
        ) {
            None => true,
            Some(i) => {
                let all = crate::frame::selected(before, view, palette, n);
                let frame = crate::frame::object_frame(
                    view.primitives@,
                    view.objects@[i],
                    view.scale,
                    palette,
                );
                match view.delta {
                    None => all.contains(Layered::Marks(frame)),
                    Some((dx, dy)) => all.contains(Layered::Moved(frame, dx, dy)) && all.contains(
                        Layered::Moved(
                            crate::frame::object_picture(
                                view.primitives@,
                                view.objects@[i],
                                palette,
                            ),
                            dx,
                            dy,
                        ),
                    ),
                }
            },
        },
    decreases n,
{
    if n == 0 {
        lemma_same(before);
    } else {
        let earlier = crate::frame::selected(before, view, palette, (n - 1) as nat);
        let all = crate::frame::selected(before, view, palette, n);
        lemma_selected(before, view, palette, (n - 1) as nat, k);
        lemma_same(earlier);
        match crate::selection::object_from(view.objects@, view.selection.uuids@[n - 1]@, 0) {
            None => {},
            Some(i) => {
                let next = all[earlier.len() as int];
                lemma_pushed(earlier, earlier, next);
                if view.delta is Some {
                    let last = all[earlier.len() as int + 1];
                    lemma_pushed(earlier, earlier.push(next), last);
                    lemma_same(earlier.push(next));
                    lemma_pushed(earlier.push(next), earlier.push(next), last);
                    lemma_still(earlier.push(next), earlier.push(next).push(last), next);
                    assert(all =~= earlier.push(next).push(last));
                } else {
                    assert(all =~= earlier.push(next));
                }
                lemma_chained(before, earlier, all);
            },
        }
        reveal(all_stays);
    }
}

proof fn lemma_base(before: Seq<Layered>, view: PageView, uuids: Seq<Seq<char>>, palette: Palette, n: nat)
    requires
        before.len() > 0,
    ensures
        crate::frame::highlighted(before, view, uuids, palette, n).len() >= before.len(),
        crate::frame::highlighted(before, view, uuids, palette, n)[0] == before[0],
    decreases n,
{
    if n > 0 {
        lemma_base(before, view, uuids, palette, (n - 1) as nat);
    }
}

/// The sheet lies under all else. While something is dragged it is the sheet without what is
/// dragged; a drawing made elsewhere is shown only of a sheet that is not drawn completely here.
pub proof fn the_sheet_lies_below(view: PageView, palette: Palette)
    ensures
        ({
            let all = crate::frame::page_layers(view, palette);
            &&& all.len() > 0
            &&& all[0] is DragBase <==> view.dragging
            &&& all[0] matches Layered::Sheet { foreign } ==> (foreign <==> !view.complete
                && view.has_foreign)
            &&& !view.dragging ==> all[0] is Sheet
        }),
{
    let base = seq![
        if view.dragging {
            Layered::DragBase
        } else {
            Layered::Sheet { foreign: !view.complete && view.has_foreign }
        },
    ];
    let pointed = match view.highlight {
        Some((origin, uuids)) => crate::frame::highlighted(
            base,
            view,
            crate::text::views(uuids@),
            crate::frame::highlight_palette(origin, palette),
            view.objects@.len(),
        ),
        None => base,
    };
    if let Some((origin, uuids)) = view.highlight {
        lemma_base(
            base,
            view,
            crate::text::views(uuids@),
            crate::frame::highlight_palette(origin, palette),
            view.objects@.len(),
        );
    }
    assert(pointed[0] == base[0]);
    let marks = Layered::Marks(
        crate::frame::page_marked(
            view.warnings@,
            view.draft,
            view.dragged_wires@,
            view.delta,
            view.scale,
            palette,
        ),
    );
    lemma_selected(pointed.push(marks), view, palette, view.selection.uuids@.len(), 0);
}

/// Every selected object is framed. While it is dragged, it is painted with its frame as far away as
/// it has been dragged.
pub proof fn selected_objects_are_framed(view: PageView, palette: Palette, k: int, i: int)
    requires
        0 <= k < view.selection.uuids@.len(),
        0 <= i < view.objects@.len(),
        view.objects@[i].uuid@ == view.selection.uuids@[k]@,
        forall|j: int|
            0 <= j < i ==> (#[trigger] view.objects@[j]).uuid@ != view.selection.uuids@[k]@,
    ensures
        ({
            let all = crate::frame::page_layers(view, palette);
            let frame = crate::frame::object_frame(
                view.primitives@,
                view.objects@[i],
                view.scale,
                palette,
            );
            let picture = crate::frame::object_picture(
                view.primitives@,
                view.objects@[i],
                palette,
            );
            match view.delta {
                None => all.contains(Layered::Marks(frame)),
                Some((dx, dy)) => all.contains(Layered::Moved(picture, dx, dy)) && all.contains(
                    Layered::Moved(frame, dx, dy),
                ),
            }
        }),
{
    lemma_object(view, view.selection.uuids@[k]@, i, 0);
    let base = seq![
        if view.dragging {
            Layered::DragBase
        } else {
            Layered::Sheet { foreign: !view.complete && view.has_foreign }
        },
    ];
    let pointed = match view.highlight {
        Some((origin, uuids)) => crate::frame::highlighted(
            base,
            view,
            crate::text::views(uuids@),
            crate::frame::highlight_palette(origin, palette),
            view.objects@.len(),
        ),
        None => base,
    };
    let marks = Layered::Marks(
        crate::frame::page_marked(
            view.warnings@,
            view.draft,
            view.dragged_wires@,
            view.delta,
            view.scale,
            palette,
        ),
    );
    lemma_selected(pointed.push(marks), view, palette, view.selection.uuids@.len(), k);
}

proof fn lemma_object(view: PageView, uuid: Seq<char>, i: int, from: nat)
    requires
        from <= i < view.objects@.len(),
        view.objects@[i].uuid@ == uuid,
        forall|j: int| from <= j < i ==> (#[trigger] view.objects@[j]).uuid@ != uuid,
    ensures
        crate::selection::object_from(view.objects@, uuid, from) == Some(i),
    decreases i - from,
{
    if from < i {
        assert(view.objects@[from as int].uuid@ != uuid);
        lemma_object(view, uuid, i, from + 1);
    }
}

/// Every object that a change speaks of is framed in the colour of who made the change.
pub proof fn changed_objects_are_framed(
    view: PageView,
    palette: Palette,
    origin: crate::change_timeline::ChangeOrigin,
    uuids: &Vec<String>,
    i: int,
)
    requires
        view.highlight == Some((origin, uuids)),
        0 <= i < view.objects@.len(),
        crate::text::views(uuids@).contains(view.objects@[i].uuid@),
    ensures
        crate::frame::page_layers(view, palette).contains(
            Layered::Marks(
                crate::frame::object_frame(
                    view.primitives@,
                    view.objects@[i],
                    view.scale,
                    Palette { selection: crate::strip::origin_color(origin, palette), ..palette },
                ),
            ),
        ),
{
    let base = seq![
        if view.dragging {
            Layered::DragBase
        } else {
            Layered::Sheet { foreign: !view.complete && view.has_foreign }
        },
    ];
    let tinted = crate::frame::highlight_palette(origin, palette);
    let pointed = crate::frame::highlighted(
        base,
        view,
        crate::text::views(uuids@),
        tinted,
        view.objects@.len(),
    );
    lemma_highlighted(base, view, crate::text::views(uuids@), tinted, view.objects@.len());
    let marks = Layered::Marks(
        crate::frame::page_marked(
            view.warnings@,
            view.draft,
            view.dragged_wires@,
            view.delta,
            view.scale,
            palette,
        ),
    );
    lemma_same(pointed);
    lemma_pushed(pointed, pointed, marks);
    lemma_selected(pointed.push(marks), view, palette, view.selection.uuids@.len(), 0);
    let all = crate::frame::page_layers(view, palette);
    lemma_chained(pointed, pointed.push(marks), all);
    let framed = Layered::Marks(
        crate::frame::object_frame(view.primitives@, view.objects@[i], view.scale, tinted),
    );
    assert(pointed.contains(framed));
    lemma_still(pointed, all, framed);
}

/// All four who can make a change have a colour of their own wherever the palette tells the colours
/// apart that it uses for them.
pub proof fn origins_are_told_apart(
    palette: Palette,
    a: crate::change_timeline::ChangeOrigin,
    b: crate::change_timeline::ChangeOrigin,
)
    requires
        palette.bus != palette.accent,
        palette.bus != palette.selection,
        palette.bus != palette.junction,
        palette.accent != palette.selection,
        palette.accent != palette.junction,
        palette.selection != palette.junction,
    ensures
        crate::strip::origin_color(a, palette) == crate::strip::origin_color(b, palette) ==> a == b,
{
}

/// One of the parts follows the trace.
pub open spec fn traces(parts: Seq<(Traced, Ink)>, trace: Traced) -> bool {
    exists|k: int| 0 <= k < parts.len() && (#[trigger] parts[k]).0 == trace
}

proof fn lemma_traces(a: Seq<(Traced, Ink)>, b: Seq<(Traced, Ink)>, trace: Traced)
    requires
        all_stays(a, b),
        traces(a, trace),
    ensures
        traces(b, trace),
{
    let k = choose|k: int| 0 <= k < a.len() && (#[trigger] a[k]).0 == trace;
    lemma_still(a, b, a[k]);
    let j = choose|j: int| 0 <= j < b.len() && b[j] == a[k];
    assert(b[j].0 == trace);
}

proof fn lemma_filled(
    before: Seq<(Traced, Ink)>,
    trace: Traced,
    fill: bool,
    filling: Color,
    style: crate::primitives::StrokeStyle,
    palette: Palette,
)
    ensures
        ({
            let all = crate::encode::filled_and_stroked(
                before,
                trace,
                fill,
                filling,
                style,
                palette,
            );
            &&& all_stays(before, all)
            &&& before.len() <= all.len()
            &&& forall|k: int| 0 <= k < before.len() ==> #[trigger] all[k] == before[k]
            &&& forall|k: int| before.len() <= k < all.len() ==> (#[trigger] all[k]).0 == trace
            &&& traces(all, trace) || all == before
            &&& fill || crate::screen::px(0).spec_less(style.width_mm) ==> traces(all, trace)
        }),
{
    let all = crate::encode::filled_and_stroked(before, trace, fill, filling, style, palette);
    lemma_same(before);
    if fill {
        let part = (trace, Ink::Fill(crate::paint::solid(filling)));
        lemma_pushed(before, before, part);
        assert(all[before.len() as int] == part);
    }
    if crate::screen::px(0).spec_less(style.width_mm) {
        let filled = if fill {
            before.push((trace, Ink::Fill(crate::paint::solid(filling))))
        } else {
            before
        };
        let part = (trace, crate::encode::round_ink(style.width_mm, style.role, palette));
        lemma_pushed(before, filled, part);
        assert(all[filled.len() as int] == part);
    }
}

proof fn lemma_drawn(before: Seq<(Traced, Ink)>, shape: Shape, i: int, palette: Palette)
    ensures
        ({
            let all = crate::encode::drawn_after(before, shape, i, palette);
            &&& all_stays(before, all)
            &&& before.len() <= all.len()
            &&& forall|k: int| 0 <= k < before.len() ==> #[trigger] all[k] == before[k]
            &&& forall|k: int|
                before.len() <= k < all.len() ==> ((#[trigger] all[k]).0 is Words <==> shape is Text)
            &&& forall|k: int|
                before.len() <= k < all.len() && shape is Text ==> (#[trigger] all[k]).0
                    == Traced::Words(i)
            &&& shape is Text ==> traces(all, Traced::Words(i))
            &&& shape matches Shape::Line { from, to, .. } ==> traces(
                all,
                Traced::Line(crate::encode::svg_place(from), crate::encode::svg_place(to)),
            )
            &&& shape matches Shape::Arc { start, mid, end, .. } ==> traces(
                all,
                Traced::Arc(start, mid, end),
            )
            &&& shape matches Shape::Rect { bounds, fill, .. } ==> fill ==> traces(
                all,
                Traced::Rect(crate::encode::svg_box(bounds)),
            )
            &&& shape matches Shape::Rect { bounds, style, .. } ==> crate::screen::px(0).spec_less(
                style.width_mm,
            ) ==> traces(all, Traced::Rect(crate::encode::svg_box(bounds)))
            &&& shape matches Shape::Polyline { points, closed, fill, .. } ==> fill ==> traces(
                all,
                Traced::Path(crate::encode::polyline(points, closed)),
            )
            &&& shape matches Shape::Polyline { points, closed, style, .. } ==> crate::screen::px(
                0,
            ).spec_less(style.width_mm) ==> traces(
                all,
                Traced::Path(crate::encode::polyline(points, closed)),
            )
        }),
{
    let all = crate::encode::drawn_after(before, shape, i, palette);
    lemma_same(before);
    match shape {
        Shape::Polyline { points, closed, style, fill } => {
            lemma_filled(
                before,
                Traced::Path(crate::encode::polyline(points, closed)),
                fill,
                palette.fill,
                style,
                palette,
            );
        },
        Shape::Rect { bounds, style, fill } => {
            lemma_filled(
                before,
                Traced::Rect(crate::encode::svg_box(bounds)),
                fill,
                if style.role == crate::scene::ColorRole::Symbol {
                    palette.fill
                } else {
                    crate::theme::color_of(style.role, palette)
                },
                style,
                palette,
            );
        },
        Shape::Circle { center, radius, style, fill } => {
            lemma_filled(
                before,
                Traced::Quarters(
                    crate::encode::quarters(center, radius),
                    crate::encode::svg_number(radius),
                ),
                fill,
                if style.role == crate::scene::ColorRole::Junction {
                    palette.junction
                } else {
                    palette.fill
                },
                style,
                palette,
            );
        },
        Shape::Bezier { points, style } => {
            if points.len() > 0 {
                lemma_pushed(before, before, all[before.len() as int]);
                assert(all =~= before.push(all[before.len() as int]));
            }
        },
        _ => {
            let part = all[before.len() as int];
            lemma_pushed(before, before, part);
            assert(all =~= before.push(part));
            assert(all[before.len() as int].0 == part.0);
        },
    }
}

proof fn lemma_picture(
    shapes: Seq<Shape>,
    from: int,
    to: int,
    without: Seq<(usize, usize)>,
    palette: Palette,
    i: int,
)
    requires
        from <= i < to,
        !crate::encode::in_ranges(i, without),
    ensures
        ({
            let earlier = crate::encode::picture(shapes, from, i, without, palette);
            all_stays(
                crate::encode::drawn_after(earlier, shapes[i], i, palette),
                crate::encode::picture(shapes, from, to, without, palette),
            )
        }),
    decreases to - i,
{
    if to == i + 1 {
        lemma_same(crate::encode::picture(shapes, from, to, without, palette));
    } else {
        lemma_picture(shapes, from, to - 1, without, palette, i);
        let before = crate::encode::picture(shapes, from, to - 1, without, palette);
        let start = crate::encode::drawn_after(
            crate::encode::picture(shapes, from, i, without, palette),
            shapes[i],
            i,
            palette,
        );
        lemma_drawn(before, shapes[to - 1], to - 1, palette);
        lemma_same(before);
        lemma_chained(start, before, crate::encode::picture(shapes, from, to, without, palette));
    }
}

/// Every line, arc, rectangle and polygon of the scene that is not left out is painted where it
/// lies.
pub proof fn shapes_are_painted_where_they_lie(
    shapes: Seq<Shape>,
    from: int,
    to: int,
    without: Seq<(usize, usize)>,
    palette: Palette,
    i: int,
)
    requires
        from <= i < to,
        !crate::encode::in_ranges(i, without),
    ensures
        ({
            let all = crate::encode::picture(shapes, from, to, without, palette);
            &&& shapes[i] matches Shape::Line { from: start, to: end, .. } ==> traces(
                all,
                Traced::Line(crate::encode::svg_place(start), crate::encode::svg_place(end)),
            )
            &&& shapes[i] matches Shape::Arc { start, mid, end, .. } ==> traces(
                all,
                Traced::Arc(start, mid, end),
            )
            &&& shapes[i] matches Shape::Rect { bounds, style, fill } ==> (fill
                || crate::screen::px(0).spec_less(style.width_mm)) ==> traces(
                all,
                Traced::Rect(crate::encode::svg_box(bounds)),
            )
            &&& shapes[i] matches Shape::Polyline { points, closed, style, fill } ==> (fill
                || crate::screen::px(0).spec_less(style.width_mm)) ==> traces(
                all,
                Traced::Path(crate::encode::polyline(points, closed)),
            )
        }),
{
    let all = crate::encode::picture(shapes, from, to, without, palette);
    let earlier = crate::encode::picture(shapes, from, i, without, palette);
    let after = crate::encode::drawn_after(earlier, shapes[i], i, palette);
    lemma_picture(shapes, from, to, without, palette, i);
    lemma_drawn(earlier, shapes[i], i, palette);
    match shapes[i] {
        Shape::Line { from: start, to: end, .. } => {
            lemma_traces(
                after,
                all,
                Traced::Line(crate::encode::svg_place(start), crate::encode::svg_place(end)),
            );
        },
        Shape::Arc { start, mid, end, .. } => {
            lemma_traces(after, all, Traced::Arc(start, mid, end));
        },
        Shape::Rect { bounds, style, fill } => {
            if fill || crate::screen::px(0).spec_less(style.width_mm) {
                lemma_traces(after, all, Traced::Rect(crate::encode::svg_box(bounds)));
            }
        },
        Shape::Polyline { points, closed, style, fill } => {
            if fill || crate::screen::px(0).spec_less(style.width_mm) {
                lemma_traces(after, all, Traced::Path(crate::encode::polyline(points, closed)));
            }
        },
        _ => {},
    }
}

/// A text is painted exactly if it is among what is painted and not left out.
pub proof fn texts_are_painted_unless_left_out(
    shapes: Seq<Shape>,
    from: int,
    to: int,
    without: Seq<(usize, usize)>,
    palette: Palette,
    i: int,
)
    ensures
        traces(crate::encode::picture(shapes, from, to, without, palette), Traced::Words(i)) <==> (
        from <= i < to && shapes[i] is Text && !crate::encode::in_ranges(i, without)),
    decreases to - from,
{
    let all = crate::encode::picture(shapes, from, to, without, palette);
    if to > from {
        let before = crate::encode::picture(shapes, from, to - 1, without, palette);
        texts_are_painted_unless_left_out(shapes, from, to - 1, without, palette, i);
        if !crate::encode::in_ranges(to - 1, without) {
            lemma_drawn(before, shapes[to - 1], to - 1, palette);
            if traces(before, Traced::Words(i)) {
                lemma_traces(before, all, Traced::Words(i));
            }
            if traces(all, Traced::Words(i)) && !traces(before, Traced::Words(i)) {
                let k = choose|k: int|
                    0 <= k < all.len() && (#[trigger] all[k]).0 == Traced::Words(i);
                if k < before.len() {
                    assert(before[k].0 == Traced::Words(i));
                }
            }
        }
    }
}

/// One of the marks is made of the words.
pub open spec fn says(marks: Seq<Painted>, words: Seq<char>) -> bool {
    exists|k: int|
        0 <= k < marks.len() && (#[trigger] marks[k]).form is Words && marks[k].words == words
}

proof fn lemma_says(a: Seq<Painted>, b: Seq<Painted>, words: Seq<char>)
    requires
        all_stays(a, b),
        says(a, words),
    ensures
        says(b, words),
{
    let k = choose|k: int|
        0 <= k < a.len() && (#[trigger] a[k]).form is Words && a[k].words == words;
    lemma_still(a, b, a[k]);
    let j = choose|j: int| 0 <= j < b.len() && b[j] == a[k];
    assert(b[j].form is Words);
}

proof fn lemma_listed(
    marks: Seq<Painted>,
    x: Double,
    y: Double,
    lines: Seq<crate::paint::Entered>,
    n: nat,
    i: int,
)
    requires
        n <= lines.len(),
    ensures
        all_stays(marks, crate::paint::listed(marks, x, y, lines, n)),
        0 <= i < n ==> says(crate::paint::listed(marks, x, y, lines, n), lines[i].words),
    decreases n,
{
    let all = crate::paint::listed(marks, x, y, lines, n);
    if n == 0 {
        lemma_same(marks);
    } else {
        let earlier = crate::paint::listed(marks, x, y, lines, (n - 1) as nat);
        lemma_listed(marks, x, y, lines, (n - 1) as nat, i);
        let last = all[earlier.len() as int];
        assert(all =~= earlier.push(last));
        lemma_pushed(marks, earlier, last);
        lemma_same(earlier);
        lemma_pushed(earlier, earlier, last);
        if 0 <= i < n - 1 {
            lemma_says(earlier, all, lines[i].words);
        } else if i == n - 1 {
            assert(all[earlier.len() as int].form is Words);
        }
    }
}

proof fn lemma_dialog(
    marks: Seq<Painted>,
    area: crate::screen::ScreenRect,
    edge: Color,
    palette: Palette,
    lines: Seq<crate::paint::Entered>,
)
    ensures
        ({
            let all = crate::panels::dialog_painted(marks, area, edge, palette, lines);
            &&& all_stays(marks, all)
            &&& forall|i: int| 0 <= i < lines.len() ==> says(all, (#[trigger] lines[i]).words)
        }),
{
    let all = crate::panels::dialog_painted(marks, area, edge, palette, lines);
    let plate = crate::paint::plated(
        marks,
        crate::paint::Outline::Rounded(area, crate::screen::px(7)),
        crate::paint::solid(palette.card),
        crate::paint::tenths(15),
        crate::paint::solid(edge),
    );
    let n = marks.len() as int;
    lemma_same(marks);
    lemma_pushed(marks, marks, plate[n]);
    lemma_pushed(marks, marks.push(plate[n]), plate[n + 1]);
    assert(plate =~= marks.push(plate[n]).push(plate[n + 1]));
    let x = crate::paint::off(area.x0, 14);
    lemma_listed(plate, x, area.y0, lines, lines.len(), 0);
    lemma_chained(marks, plate, all);
    assert forall|i: int| 0 <= i < lines.len() implies says(all, (#[trigger] lines[i]).words) by {
        lemma_listed(plate, x, area.y0, lines, lines.len(), i);
    }
}

proof fn lemma_dialogs(marks: Seq<Painted>, view: WindowView)
    ensures
        ({
            let all = crate::window::dialogs_added(marks, view);
            &&& all_stays(marks, all)
            &&& view.search matches Some(s) ==> says(all, "Find: "@ + s.query@ + "▏"@) && says(
                all,
                crate::panels::search_detail(*s),
            )
            &&& view.property matches Some(e) ==> says(all, "Edit "@ + e.name@) && says(
                all,
                crate::ui_text::truncated(e.value@ + "▏"@, 58),
            )
            &&& view.label matches Some(e) ==> says(
                all,
                crate::ui_text::truncated(e.value@ + "▏"@, 58),
            )
            &&& view.sheet_pin matches Some(e) ==> says(
                all,
                "Name: "@ + crate::ui_text::truncated(e.name@, 54) + "▏"@,
            )
        }),
{
    let w = view.width;
    let p = view.palette;
    let all = crate::window::dialogs_added(marks, view);
    lemma_same(marks);
    let searched = match view.search {
        Some(s) => {
            let area = crate::panels::dialog_area(w, 260, 12, 60);
            let lines = crate::panels::search_lines(*s, p);
            lemma_dialog(marks, area, p.accent, p, lines);
            assert(lines[0].words == "Find: "@ + s.query@ + "▏"@);
            assert(lines[1].words == crate::panels::search_detail(*s));
            crate::panels::dialog_painted(marks, area, p.accent, p, lines)
        },
        None => marks,
    };
    lemma_same(searched);
    let property = match view.property {
        Some(e) => {
            let area = crate::panels::dialog_area(w, 250, 90, 82);
            let lines = crate::panels::value_lines(
                "Edit "@ + e.name@,
                130,
                e.value@,
                "Enter · atomic save    Esc · cancel"@,
                p,
            );
            lemma_dialog(searched, area, p.selection, p, lines);
            assert(lines[0].words == "Edit "@ + e.name@);
            assert(lines[1].words == crate::ui_text::truncated(e.value@ + "▏"@, 58));
            crate::panels::dialog_painted(searched, area, p.selection, p, lines)
        },
        None => searched,
    };
    lemma_same(property);
    let label = match view.label {
        Some(e) => {
            let area = crate::panels::dialog_area(w, 250, 90, 82);
            let lines = crate::panels::value_lines(
                "Local label at "@ + crate::geometry::place_text(e.point),
                120,
                e.value@,
                "Enter · atomic place    Esc · cancel"@,
                p,
            );
            lemma_dialog(property, area, p.accent, p, lines);
            assert(lines[1].words == crate::ui_text::truncated(e.value@ + "▏"@, 58));
            crate::panels::dialog_painted(property, area, p.accent, p, lines)
        },
        None => property,
    };
    lemma_same(label);
    let sheet = match view.sheet {
        Some(e) => {
            let area = crate::panels::dialog_area(w, 280, 82, 132);
            let lines = crate::panels::sheet_lines(*e, p);
            lemma_dialog(label, area, p.accent, p, lines);
            crate::panels::dialog_painted(label, area, p.accent, p, lines)
        },
        None => label,
    };
    lemma_same(sheet);
    match view.sheet_pin {
        Some(e) => {
            let area = crate::panels::dialog_area(w, 270, 90, 104);
            let lines = crate::panels::sheet_pin_lines(*e, p);
            lemma_dialog(sheet, area, p.accent, p, lines);
            assert(lines[1].words == "Name: "@ + crate::ui_text::truncated(e.name@, 54) + "▏"@);
        },
        None => {},
    }
    lemma_chained(label, sheet, all);
    lemma_chained(property, label, all);
    lemma_chained(searched, property, all);
    lemma_chained(marks, searched, all);
    if let Some(s) = view.search {
        lemma_says(searched, all, "Find: "@ + s.query@ + "▏"@);
        lemma_says(searched, all, crate::panels::search_detail(*s));
    }
    if let Some(e) = view.property {
        lemma_says(property, all, "Edit "@ + e.name@);
        lemma_says(property, all, crate::ui_text::truncated(e.value@ + "▏"@, 58));
    }
    if let Some(e) = view.label {
        lemma_says(label, all, crate::ui_text::truncated(e.value@ + "▏"@, 58));
    }
}

/// What is typed into a dialog is seen on the window, with a mark where the next letter will stand.
pub proof fn typed_text_is_seen<F: Fn(String) -> Option<crate::native_font::ShapedText> + Copy>(
    view: WindowView,
    font: crate::native_font::NativeFont<F>,
)
    ensures
        ({
            let all = crate::window::window_painted(view, font);
            &&& view.search matches Some(s) ==> says(all, "Find: "@ + s.query@ + "▏"@)
            &&& view.property matches Some(e) ==> e.value@.len() < 58 ==> says(
                all,
                e.value@ + "▏"@,
            ) && says(all, "Edit "@ + e.name@)
            &&& view.label matches Some(e) ==> e.value@.len() < 58 ==> says(all, e.value@ + "▏"@)
            &&& view.sheet_pin matches Some(e) ==> e.name@.len() <= 54 ==> says(
                all,
                "Name: "@ + e.name@ + "▏"@,
            )
        }),
{
    lemma_dialogs(
        crate::window::cards_added(crate::window::edges_painted(view, font), view),
        view,
    );
    reveal_strlit("▏");
}

/// The search tells how many items it has found, and which is the next.
pub proof fn hits_are_counted<F: Fn(String) -> Option<crate::native_font::ShapedText> + Copy>(
    view: WindowView,
    font: crate::native_font::NativeFont<F>,
    search: &crate::search::SearchState,
)
    requires
        view.search == Some(search),
    ensures
        ({
            let all = crate::window::window_painted(view, font);
            let count = crate::text::decimal(search.hits@.len());
            if search.hits@.len() == 0 {
                says(all, count + " result(s) · Enter to navigate · Esc to close"@)
            } else {
                says(
                    all,
                    count + " result(s) · next: "@ + search.hits@[search.next_hit()].description@
                        + " · Enter to navigate"@,
                )
            }
        }),
{
    lemma_dialogs(
        crate::window::cards_added(crate::window::edges_painted(view, font), view),
        view,
    );
}

proof fn lemma_card(
    marks: Seq<Painted>,
    index: usize,
    area: crate::screen::ScreenRect,
    card: SheetCard,
    active: bool,
    palette: Palette,
)
    ensures
        ({
            let all = crate::strip::card_painted(marks, index, area, card, active, palette);
            &&& all_stays(marks, all)
            &&& says(all, crate::strip::card_title(index as int, card))
            &&& !card.complete ==> says(all, "!"@)
            &&& shows_sheet(all, index)
        }),
{
    let all = crate::strip::card_painted(marks, index, area, card, active, palette);
    let n = marks.len() as int;
    lemma_same(marks);
    lemma_pushed(marks, marks, all[n]);
    let a = marks.push(all[n]);
    lemma_pushed(marks, a, all[n + 1]);
    let b = a.push(all[n + 1]);
    lemma_pushed(marks, b, all[n + 2]);
    let c = b.push(all[n + 2]);
    lemma_pushed(marks, c, all[n + 3]);
    let d = c.push(all[n + 3]);
    assert(all[n + 2].form is Sheet);
    assert(all[n + 3].form is Words);
    if !card.complete {
        lemma_pushed(marks, d, all[n + 4]);
        assert(all =~= d.push(all[n + 4]));
        assert(all[n + 4].form is Words);
    } else {
        assert(all =~= d);
    }
}

/// One of the marks is the picture of the sheet.
pub open spec fn shows_sheet(marks: Seq<Painted>, index: usize) -> bool {
    exists|k: int|
        0 <= k < marks.len() && ((#[trigger] marks[k]).form matches Form::Sheet(i, _, _) && i
            == index)
}

proof fn lemma_shows(a: Seq<Painted>, b: Seq<Painted>, index: usize)
    requires
        all_stays(a, b),
        shows_sheet(a, index),
    ensures
        shows_sheet(b, index),
{
    let k = choose|k: int|
        0 <= k < a.len() && ((#[trigger] a[k]).form matches Form::Sheet(i, _, _) && i == index);
    lemma_still(a, b, a[k]);
    let j = choose|j: int| 0 <= j < b.len() && b[j] == a[k];
    assert(b[j].form is Sheet);
}

proof fn lemma_cards(
    marks: Seq<Painted>,
    width: Double,
    height: Double,
    scroll: Double,
    cards: Seq<SheetCard>,
    active: int,
    palette: Palette,
    n: nat,
    i: int,
)
    requires
        n <= cards.len() <= usize::MAX,
    ensures
        ({
            let all = crate::strip::cards_painted(
                marks,
                width,
                height,
                scroll,
                cards,
                active,
                palette,
                n,
            );
            let area = crate::controls::card_area(i, height, scroll);
            &&& all_stays(marks, all)
            &&& 0 <= i < n && !area.x1.spec_less(crate::screen::px(0)) && !width.spec_less(area.x0)
                ==> says(all, crate::strip::card_title(i, cards[i])) && shows_sheet(
                all,
                i as usize,
            ) && (!cards[i].complete ==> says(all, "!"@))
        }),
    decreases n,
{
    let all = crate::strip::cards_painted(
        marks,
        width,
        height,
        scroll,
        cards,
        active,
        palette,
        n,
    );
    lemma_same(marks);
    if n > 0 {
        let before = crate::strip::cards_painted(
            marks,
            width,
            height,
            scroll,
            cards,
            active,
            palette,
            (n - 1) as nat,
        );
        lemma_cards(marks, width, height, scroll, cards, active, palette, (n - 1) as nat, i);
        lemma_same(before);
        let area = crate::controls::card_area(n - 1, height, scroll);
        lemma_card(
            before,
            (n - 1) as usize,
            area,
            cards[n - 1],
            n - 1 == active,
            palette,
        );
        lemma_chained(marks, before, all);
        let own = crate::controls::card_area(i, height, scroll);
        if 0 <= i < n - 1 && !own.x1.spec_less(crate::screen::px(0)) && !width.spec_less(own.x0) {
            lemma_says(before, all, crate::strip::card_title(i, cards[i]));
            lemma_shows(before, all, i as usize);
            if !cards[i].complete {
                lemma_says(before, all, "!"@);
            }
        }
    }
}

/// Every sheet whose card lies on the window is shown there with its picture and its title, and a
/// sheet that is not drawn completely is marked.
pub proof fn sheets_are_shown_on_their_cards(
    marks: Seq<Painted>,
    width: Double,
    height: Double,
    scroll: Double,
    cards: Seq<SheetCard>,
    active: int,
    palette: Palette,
    i: int,
)
    requires
        0 <= i < cards.len() <= usize::MAX,
        !crate::controls::card_area(i, height, scroll).x1.spec_less(crate::screen::px(0)),
        !width.spec_less(crate::controls::card_area(i, height, scroll).x0),
    ensures
        ({
            let all = crate::strip::film_painted(
                marks,
                width,
                height,
                scroll,
                cards,
                active,
                palette,
            );
            &&& shows_sheet(all, i as usize)
            &&& says(all, crate::strip::card_title(i, cards[i]))
            &&& !cards[i].complete ==> says(all, "!"@)
        }),
{
    lemma_cards(
        marks.push(
            crate::paint::filled(
                crate::paint::Outline::Rect(crate::screen::film_area(width, height)),
                crate::paint::solid(palette.filmstrip),
            ),
        ),
        width,
        height,
        scroll,
        cards,
        active,
        palette,
        cards.len(),
        i,
    );
}

/// Titles tell sheets apart by their place: the title of a card begins with its number.
pub proof fn cards_are_numbered(i: int, card: SheetCard)
    requires
        0 <= i < 99,
    ensures
        ({
            let title = crate::strip::card_title(i, card);
            &&& title.len() >= 2
            &&& title[0] as int - '0' as int == (i + 1) / 10
            &&& title[1] as int - '0' as int == (i + 1) % 10
        }),
{
    let number = crate::strip::two_digits((i + 1) as nat);
    lemma_two_digits((i + 1) as nat);
    let whole = number + "  "@ + crate::strip::arrows(card.depth as nat)
        + crate::ui_text::sheet_title(card.name@);
    assert(whole[0] == number[0]);
    assert(whole[1] == number[1]);
    let title = crate::strip::card_title(i, card);
    if whole.len() > 22 {
        assert(title[0] == whole[0]);
        assert(title[1] == whole[1]);
    }
}

proof fn lemma_two_digits(n: nat)
    requires
        0 < n < 100,
    ensures
        crate::strip::two_digits(n).len() == 2,
        crate::strip::two_digits(n)[0] as int - '0' as int == n / 10,
        crate::strip::two_digits(n)[1] as int - '0' as int == n % 10,
{
    reveal_strlit("0");
    reveal_with_fuel(crate::text::decimal, 3);
}

proof fn lemma_event(events: Seq<crate::change_timeline::ChangeEvent>, from: nat, i: int)
    requires
        from <= i < events.len(),
        forall|j: int| 0 <= j < i ==> (#[trigger] events[j]).id != events[i].id,
    ensures
        crate::change_timeline::event_from(events, events[i].id, from) == Some(i),
    decreases i - from,
{
    if from < i {
        assert(events[from as int].id != events[i].id);
        lemma_event(events, from + 1, i);
    }
}

proof fn lemma_change(
    marks: Seq<Painted>,
    event: crate::change_timeline::ChangeEvent,
    area: crate::screen::ScreenRect,
    highlighted: bool,
    now: u64,
    wall: u64,
    palette: Palette,
)
    ensures
        ({
            let all = crate::strip::change_painted(
                marks,
                event,
                area,
                highlighted,
                now,
                wall,
                palette,
            );
            &&& all_stays(marks, all)
            &&& says(all, crate::ui_text::truncated(event.label@, 19))
        }),
{
    let all = crate::strip::change_painted(marks, event, area, highlighted, now, wall, palette);
    let n = marks.len() as int;
    lemma_same(marks);
    lemma_pushed(marks, marks, all[n]);
    let a = marks.push(all[n]);
    lemma_pushed(marks, a, all[n + 1]);
    let b = a.push(all[n + 1]);
    lemma_pushed(marks, b, all[n + 2]);
    let c = b.push(all[n + 2]);
    lemma_pushed(marks, c, all[n + 3]);
    let d = c.push(all[n + 3]);
    lemma_pushed(marks, d, all[n + 4]);
    let e = d.push(all[n + 4]);
    lemma_pushed(marks, e, all[n + 5]);
    assert(all =~= e.push(all[n + 5]));
    assert(all[n + 4].form is Words);
}

proof fn lemma_changes(
    marks: Seq<Painted>,
    events: Seq<crate::change_timeline::ChangeEvent>,
    shown: Seq<crate::controls::ShownChange>,
    highlighted: Option<u64>,
    now: u64,
    wall: u64,
    palette: Palette,
    n: nat,
    k: int,
    i: int,
)
    requires
        n <= shown.len(),
        0 <= i < events.len(),
        crate::change_timeline::event_from(events, events[i].id, 0) == Some(i),
        0 <= k < shown.len(),
        shown[k].id == events[i].id,
    ensures
        ({
            let all = crate::strip::changes_painted(
                marks,
                events,
                shown,
                highlighted,
                now,
                wall,
                palette,
                n,
            );
            &&& all_stays(marks, all)
            &&& k < n ==> says(all, crate::ui_text::truncated(events[i].label@, 19))
        }),
    decreases n,
{
    lemma_same(marks);
    if n > 0 {
        let before = crate::strip::changes_painted(
            marks,
            events,
            shown,
            highlighted,
            now,
            wall,
            palette,
            (n - 1) as nat,
        );
        let all = crate::strip::changes_painted(
            marks,
            events,
            shown,
            highlighted,
            now,
            wall,
            palette,
            n,
        );
        lemma_changes(
            marks,
            events,
            shown,
            highlighted,
            now,
            wall,
            palette,
            (n - 1) as nat,
            k,
            i,
        );
        let s = shown[n - 1];
        lemma_same(before);
        if let Some(m) = crate::change_timeline::event_from(events, s.id, 0) {
            lemma_change(
                before,
                events[m],
                s.rect,
                highlighted == Some(s.id),
                now,
                wall,
                palette,
            );
        }
        lemma_chained(marks, before, all);
        if k < n - 1 {
            lemma_says(before, all, crate::ui_text::truncated(events[i].label@, 19));
        }
    }
}

/// Every change that has a place on the timeline is shown there with its label.
pub proof fn changes_are_shown_with_their_labels(
    marks: Seq<Painted>,
    width: Double,
    height: Double,
    events: Seq<crate::change_timeline::ChangeEvent>,
    scroll: int,
    highlighted: Option<u64>,
    now: u64,
    wall: u64,
    palette: Palette,
    k: int,
    i: int,
)
    requires
        forall|a: int, b: int|
            0 <= a < b < events.len() ==> (#[trigger] events[a]).id != (#[trigger] events[b]).id,
        0 <= k < crate::controls::changes_placed(events, scroll, width, height).len(),
        0 <= i < events.len(),
        crate::controls::changes_placed(events, scroll, width, height)[k].id == events[i].id,
    ensures
        says(
            crate::strip::timeline_painted(
                marks,
                width,
                height,
                events,
                scroll,
                highlighted,
                now,
                wall,
                palette,
            ),
            crate::ui_text::truncated(events[i].label@, 19),
        ),
{
    let shown = crate::controls::changes_placed(events, scroll, width, height);
    lemma_event(events, 0, i);
    lemma_changes(
        crate::strip::timeline_bar(marks, width, height, events.len(), scroll, palette),
        events,
        shown,
        highlighted,
        now,
        wall,
        palette,
        shown.len(),
        k,
        i,
    );
}

proof fn lemma_grip(
    marks: Seq<Painted>,
    panel: crate::screen::ScreenRect,
    color: Color,
    n: nat,
)
    ensures
        all_stays(marks, crate::panels::grip(marks, panel, color, n)),
    decreases n,
{
    lemma_same(marks);
    if n > 0 {
        let before = crate::panels::grip(marks, panel, color, (n - 1) as nat);
        let all = crate::panels::grip(marks, panel, color, n);
        lemma_grip(marks, panel, color, (n - 1) as nat);
        lemma_pushed(marks, before, all[before.len() as int]);
        assert(all =~= before.push(all[before.len() as int]));
    }
}

proof fn lemma_fold(
    marks: Seq<Painted>,
    panel: crate::screen::ScreenRect,
    collapsed: bool,
    palette: Palette,
)
    ensures
        all_stays(marks, crate::panels::fold_painted(marks, panel, collapsed, palette)),
{
    let all = crate::panels::fold_painted(marks, panel, collapsed, palette);
    let n = marks.len() as int;
    lemma_same(marks);
    lemma_pushed(marks, marks, all[n]);
    let a = marks.push(all[n]);
    lemma_pushed(marks, a, all[n + 1]);
    let b = a.push(all[n + 1]);
    lemma_pushed(marks, b, all[n + 2]);
    let c = b.push(all[n + 2]);
    if collapsed {
        lemma_pushed(marks, c, all[n + 3]);
        assert(all =~= c.push(all[n + 3]));
    } else {
        assert(all =~= c);
    }
}

proof fn lemma_head(
    marks: Seq<Painted>,
    panel: crate::screen::ScreenRect,
    count: nat,
    collapsed: bool,
    palette: Palette,
)
    ensures
        ({
            let all = crate::panels::warnings_head(marks, panel, count, collapsed, palette);
            &&& all_stays(marks, all)
            &&& says(all, crate::panels::warnings_title(count, collapsed))
        }),
{
    let plate = crate::paint::plated(
        marks,
        crate::paint::Outline::Rounded(panel, crate::screen::px(9)),
        crate::paint::sheer(palette.card, 96),
        crate::screen::px(1),
        crate::paint::solid(palette.selection),
    );
    let n = marks.len() as int;
    lemma_same(marks);
    lemma_pushed(marks, marks, plate[n]);
    lemma_pushed(marks, marks.push(plate[n]), plate[n + 1]);
    assert(plate =~= marks.push(plate[n]).push(plate[n + 1]));
    let held = crate::panels::grip(plate, panel, palette.selection, 6);
    lemma_grip(plate, panel, palette.selection, 6);
    lemma_chained(marks, plate, held);
    let all = crate::panels::warnings_head(marks, panel, count, collapsed, palette);
    let titled = held.push(
        crate::paint::line(
            crate::panels::warnings_title(count, collapsed),
            crate::screen::px(
                if collapsed {
                    12
                } else {
                    16
                },
            ),
            crate::paint::off(panel.x0, 31),
            crate::paint::off(panel.y0, crate::screen::DIAGNOSTICS_HEADER_HEIGHT / 2),
            crate::paint::solid(palette.selection),
        ),
    );
    lemma_pushed(marks, held, titled[held.len() as int]);
    assert(titled[held.len() as int].form is Words);
    lemma_fold(titled, panel, collapsed, palette);
    assert(all == crate::panels::fold_painted(titled, panel, collapsed, palette));
    lemma_chained(marks, titled, all);
    lemma_says(titled, all, crate::panels::warnings_title(count, collapsed));
}

proof fn lemma_warnings(
    marks: Seq<Painted>,
    panel: crate::screen::ScreenRect,
    step: Double,
    messages: Seq<ConnectivityDiagnostic>,
    palette: Palette,
    n: nat,
    i: int,
)
    requires
        n <= messages.len(),
    ensures
        ({
            let all = crate::panels::warnings_listed(marks, panel, step, messages, palette, n);
            &&& all_stays(marks, all)
            &&& 0 <= i < n ==> says(all, crate::ui_text::truncated(messages[i].message@, 72))
        }),
    decreases n,
{
    lemma_same(marks);
    if n > 0 {
        let before = crate::panels::warnings_listed(
            marks,
            panel,
            step,
            messages,
            palette,
            (n - 1) as nat,
        );
        let all = crate::panels::warnings_listed(marks, panel, step, messages, palette, n);
        lemma_warnings(marks, panel, step, messages, palette, (n - 1) as nat, i);
        let last = all[before.len() as int];
        assert(all =~= before.push(last));
        lemma_pushed(marks, before, last);
        lemma_same(before);
        lemma_pushed(before, before, last);
        if 0 <= i < n - 1 {
            lemma_says(before, all, crate::ui_text::truncated(messages[i].message@, 72));
        } else if i == n - 1 {
            assert(all[before.len() as int].form is Words);
        }
    }
}

/// The panel of warnings says how many there are. Open, it lists the first four, and how many more
/// there are; where there are none, there is no panel.
pub proof fn warnings_are_listed(
    marks: Seq<Painted>,
    width: Double,
    height: Double,
    palette: Palette,
    settings: crate::viewer_settings::ViewerSettings,
    warnings: Seq<ConnectivityDiagnostic>,
)
    ensures
        ({
            let all = crate::panels::warnings_painted(
                marks,
                width,
                height,
                palette,
                settings,
                warnings,
            );
            let count = crate::text::decimal(warnings.len());
            &&& warnings.len() == 0 ==> all == marks
            &&& warnings.len() > 0 && settings.diagnostics_collapsed ==> says(
                all,
                count + " design warnings"@,
            )
            &&& warnings.len() > 0 && !settings.diagnostics_collapsed ==> says(
                all,
                "Design checks · "@ + count + " warning(s)"@,
            )
            &&& !settings.diagnostics_collapsed ==> forall|i: int|
                0 <= i < warnings.len() && i < 4 ==> says(
                    all,
                    crate::ui_text::truncated((#[trigger] warnings[i]).message@, 72),
                )
            &&& !settings.diagnostics_collapsed && warnings.len() > 4 ==> says(
                all,
                "+"@ + crate::text::decimal((warnings.len() - 4) as nat) + " more checks"@,
            )
        }),
{
    let all = crate::panels::warnings_painted(marks, width, height, palette, settings, warnings);
    let count = warnings.len();
    if count > 0 {
        let panel = crate::controls::panel_area(width, height, settings, count as int);
        let collapsed = settings.diagnostics_collapsed;
        let head = crate::panels::warnings_head(marks, panel, count, collapsed, palette);
        lemma_head(marks, panel, count, collapsed, palette);
        if !collapsed {
            let visible: nat = if count <= 4 {
                count
            } else {
                4
            };
            let step = crate::controls::line_height(settings);
            let listed = crate::panels::warnings_listed(
                head,
                panel,
                step,
                warnings,
                palette,
                visible,
            );
            lemma_warnings(head, panel, step, warnings, palette, visible, 0);
            lemma_same(listed);
            if count > visible {
                lemma_pushed(listed, listed, all[listed.len() as int]);
                assert(all =~= listed.push(all[listed.len() as int]));
                assert(all[listed.len() as int].form is Words);
            } else {
                assert(all == listed);
            }
            lemma_chained(head, listed, all);
            lemma_says(head, all, crate::panels::warnings_title(count, collapsed));
            assert forall|i: int| 0 <= i < warnings.len() && i < 4 implies says(
                all,
                crate::ui_text::truncated((#[trigger] warnings[i]).message@, 72),
            ) by {
                lemma_warnings(head, panel, step, warnings, palette, visible, i);
                lemma_says(listed, all, crate::ui_text::truncated(warnings[i].message@, 72));
            }
        }
    }
}

/// The picture of a tool is among the marks, in the colour.
pub open spec fn shows_tool(marks: Seq<Painted>, icon: crate::icons::UiIcon, color: Color) -> bool {
    exists|k: int|
        0 <= k < marks.len() && ((#[trigger] marks[k]).form matches Form::Icon(i, _) && i == icon)
            && marks[k].paint.color == color
}

proof fn lemma_tools(
    marks: Seq<Painted>,
    state: crate::toolbar::ToolState,
    hovered: Option<crate::controls::ToolbarAction>,
    palette: Palette,
    n: nat,
    i: int,
)
    ensures
        ({
            let all = crate::toolbar::tools_painted(marks, state, hovered, palette, n);
            let action = crate::controls::tool_of(i);
            &&& all_stays(marks, all)
            &&& 0 <= i < n ==> shows_tool(
                all,
                crate::controls::icon_of_tool(action),
                if crate::toolbar::is_active(action, state) || hovered == Some(action) {
                    palette.accent
                } else {
                    palette.text
                },
            )
        }),
    decreases n,
{
    lemma_same(marks);
    if n > 0 {
        let before = crate::toolbar::tools_painted(marks, state, hovered, palette, (n - 1) as nat);
        let all = crate::toolbar::tools_painted(marks, state, hovered, palette, n);
        lemma_tools(marks, state, hovered, palette, (n - 1) as nat, i);
        let m = before.len() as int;
        lemma_same(before);
        lemma_pushed(before, before, all[m]);
        let a = before.push(all[m]);
        lemma_pushed(before, a, all[m + 1]);
        let b = a.push(all[m + 1]);
        lemma_pushed(before, b, all[m + 2]);
        assert(all =~= b.push(all[m + 2]));
        lemma_chained(marks, before, all);
        let action = crate::controls::tool_of(i);
        let icon = crate::controls::icon_of_tool(action);
        let color = if crate::toolbar::is_active(action, state) || hovered == Some(action) {
            palette.accent
        } else {
            palette.text
        };
        if 0 <= i < n - 1 {
            let k = choose|k: int|
                0 <= k < before.len() && ((#[trigger] before[k]).form matches Form::Icon(j, _) && j
                    == icon) && before[k].paint.color == color;
            lemma_still(before, all, before[k]);
            let j = choose|j: int| 0 <= j < all.len() && all[j] == before[k];
            assert(all[j].form is Icon);
        } else if i == n - 1 {
            assert(all[m + 2].form is Icon);
        }
    }
}

/// Every tool is shown with its picture. The ones that are on, and the one under the pointer, stand
/// out.
pub proof fn tools_are_shown(
    marks: Seq<Painted>,
    state: crate::toolbar::ToolState,
    hovered: Option<crate::controls::ToolbarAction>,
    palette: Palette,
    i: int,
)
    requires
        0 <= i < crate::controls::TOOLS,
    ensures
        shows_tool(
            crate::toolbar::tools_painted(
                marks,
                state,
                hovered,
                palette,
                crate::controls::TOOLS as nat,
            ),
            crate::controls::icon_of_tool(crate::controls::tool_of(i)),
            if hovered == Some(crate::controls::tool_of(i)) || match crate::controls::tool_of(i) {
                crate::controls::ToolbarAction::Snap => state.snap_enabled,
                crate::controls::ToolbarAction::HighlightChanges =>
                    state.settings.highlight_changes,
                crate::controls::ToolbarAction::FollowChanges => state.settings.follow_changes,
                crate::controls::ToolbarAction::TextSelect => state.text_select_mode,
                crate::controls::ToolbarAction::Theme => state.settings.dark_theme,
                _ => false,
            } {
                palette.accent
            } else {
                palette.text
            },
        ),
{
    lemma_tools(marks, state, hovered, palette, crate::controls::TOOLS as nat, i);
}

proof fn lemma_object_lines(
    object: crate::scene_builder::SceneObject,
    palette: Palette,
    n: nat,
    k: int,
)
    requires
        n <= object.properties@.len(),
    ensures
        ({
            let lines = crate::panels::object_lines(object, palette, n);
            &&& lines.len() == n + 4
            &&& 0 <= k < n ==> lines[k + 4].words == crate::ui_text::truncated(
                object.properties@[k].name@ + " · "@ + object.properties@[k].value@,
                44,
            )
        }),
    decreases n,
{
    if n > 0 {
        lemma_object_lines(object, palette, (n - 1) as nat, k);
    }
}

proof fn lemma_uncut(
    marks: Seq<Painted>,
    x: Double,
    y: Double,
    bottom: Double,
    lines: Seq<crate::paint::Entered>,
    palette: Palette,
    i: nat,
    k: int,
)
    requires
        i <= lines.len(),
        forall|j: int|
            0 <= j < lines.len() ==> !bottom.spec_less(
                crate::paint::off(y, (#[trigger] lines[j]).down),
            ),
    ensures
        ({
            let all = crate::panels::cut_short(marks, x, y, bottom, lines, palette, i);
            &&& all_stays(marks, all)
            &&& i <= k < lines.len() ==> says(all, lines[k].words)
        }),
    decreases lines.len() - i,
{
    lemma_same(marks);
    if i < lines.len() {
        let e = lines[i as int];
        let mark = crate::paint::line(
            e.words,
            crate::paint::tenths(e.tenths),
            x,
            crate::paint::off(y, e.down),
            e.paint,
        );
        let more = marks.push(mark);
        lemma_pushed(marks, marks, mark);
        lemma_uncut(more, x, y, bottom, lines, palette, i + 1, k);
        let all = crate::panels::cut_short(marks, x, y, bottom, lines, palette, i);
        lemma_chained(marks, more, all);
        if k == i {
            assert(more[marks.len() as int].form is Words);
            lemma_says(more, all, e.words);
        }
    }
}

/// The inspector lists every property of the object, with its name and its value, as far as there is
/// room for all of them.
pub proof fn properties_are_listed(
    marks: Seq<Painted>,
    width: Double,
    height: Double,
    palette: Palette,
    object: crate::scene_builder::SceneObject,
    k: int,
)
    requires
        0 <= k < object.properties@.len(),
        ({
            let area = crate::panels::inspector_area(width, height);
            let lines = crate::panels::object_lines(object, palette, object.properties@.len());
            forall|j: int|
                0 <= j < lines.len() ==> !crate::paint::off(area.y1, -14).spec_less(
                    crate::paint::off(area.y0, (#[trigger] lines[j]).down),
                )
        }),
    ensures
        says(
            crate::panels::inspector_painted(marks, width, height, palette, object),
            crate::ui_text::truncated(
                object.properties@[k].name@ + " · "@ + object.properties@[k].value@,
                44,
            ),
        ),
{
    let area = crate::panels::inspector_area(width, height);
    let lines = crate::panels::object_lines(object, palette, object.properties@.len());
    lemma_object_lines(object, palette, object.properties@.len(), k);
    lemma_uncut(
        crate::paint::plated(
            marks,
            crate::paint::Outline::Rounded(area, crate::screen::px(7)),
            crate::paint::sheer(palette.card, 96),
            crate::screen::px(1),
            crate::paint::solid(palette.card_border),
        ),
        crate::paint::off(area.x0, 12),
        area.y0,
        crate::paint::off(area.y1, -14),
        lines,
        palette,
        0,
        k + 4,
    );
}

} // verus!
