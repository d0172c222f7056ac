//! A frame: what is painted on the page, layer by layer, and what stands over it on the window.

use crate::attachment::ConnectedWireMove;
use crate::change_timeline::{ChangeEvent, ChangeOrigin, ChangeTimeline};
use crate::connectivity::{ConnectivityDiagnostic, ConnectivityDiagnosticKind};
use crate::dialogs::WireDraft;
use crate::double::{ratio, Double};
use crate::encode::{append_selection, encode_primitives, Drawn, Ink, Trace};
use crate::geometry::{greater, lesser, Point};
use crate::paint::{opaque, with_alpha, Canvas, Outline};
use crate::primitives::Primitive;
use crate::scene_builder::SceneObject;
use crate::screen::{pixels, ScreenRect};
use crate::selection::{find_object, Selection};
use crate::strip::find_origin_color;
use crate::text::has_name;
use crate::theme::{Color, Palette};
use crate::viewer_settings::clamp;
use vstd::prelude::*;

verus! {

/// The colour of a warning.
pub open spec fn warning_color(kind: ConnectivityDiagnosticKind, palette: Palette) -> Color {
    match kind {
        ConnectivityDiagnosticKind::ConnectedNoConnect => palette.no_connect,
        ConnectivityDiagnosticKind::DanglingWire => palette.selection,
        ConnectivityDiagnosticKind::DuplicateReference => palette.accent,
        ConnectivityDiagnosticKind::DuplicateSheetName => palette.accent,
        ConnectivityDiagnosticKind::DuplicateSheetPin => palette.accent,
        ConnectivityDiagnosticKind::MissingJunction => palette.accent,
        ConnectivityDiagnosticKind::UnconnectedBusEntry => palette.bus,
        ConnectivityDiagnosticKind::UnpositionedSheetField => palette.sheet_file,
    }
}

fn find_warning_color(kind: ConnectivityDiagnosticKind, palette: Palette) -> (r: Color)
    ensures
        r == warning_color(kind, palette),
{
    match kind {
        ConnectivityDiagnosticKind::ConnectedNoConnect => palette.no_connect,
        ConnectivityDiagnosticKind::DanglingWire => palette.selection,
        ConnectivityDiagnosticKind::DuplicateReference => palette.accent,
        ConnectivityDiagnosticKind::DuplicateSheetName => palette.accent,
        ConnectivityDiagnosticKind::DuplicateSheetPin => palette.accent,
        ConnectivityDiagnosticKind::MissingJunction => palette.accent,
        ConnectivityDiagnosticKind::UnconnectedBusEntry => palette.bus,
        ConnectivityDiagnosticKind::UnpositionedSheetField => palette.sheet_file,
    }
}

/// A scale that something can be divided by.
pub open spec fn scale_wf(scale: Double) -> bool {
    crate::screen::fair(scale) && scale.mantissa != 0
}

/// So many tenths of a pixel, in millimetres of the page.
pub open spec fn on_page(tenths: int, scale: Double) -> Double {
    crate::double::spec_ratio(tenths, 10).spec_quotient(scale)
}

/// A length of pixels on the page, within two lengths in hundredths of a millimetre.
pub open spec fn kept_between(tenths: int, scale: Double, low: int, high: int) -> Double {
    crate::viewer_settings::clamped(
        on_page(tenths, scale),
        crate::double::spec_ratio(low, 100),
        crate::double::spec_ratio(high, 100),
    )
}

/// A length of pixels on the page, and at least so many hundredths of a millimetre.
pub open spec fn at_least(tenths: int, scale: Double, low: int) -> Double {
    crate::geometry::spec_greater(on_page(tenths, scale), crate::double::spec_ratio(low, 100))
}

fn to_page(tenths: i64, scale: Double) -> (r: Double)
    requires
        0 < tenths <= 1000,
        scale_wf(scale),
    ensures
        r == on_page(tenths as int, scale),
        r.wf(),
        r.within(0x101_0000),
{
    ratio(tenths, 10).divided_by(scale)
}

fn keep_between(tenths: i64, scale: Double, low: i64, high: i64) -> (r: Double)
    requires
        0 < tenths <= 1000,
        scale_wf(scale),
        0 <= low <= 1000,
        0 <= high <= 1000,
    ensures
        r == kept_between(tenths as int, scale, low as int, high as int),
        r.wf(),
        r.within(0x101_0000),
{
    clamp(to_page(tenths, scale), ratio(low, 100), ratio(high, 100))
}

fn keep_above(tenths: i64, scale: Double, low: i64) -> (r: Double)
    requires
        0 < tenths <= 1000,
        scale_wf(scale),
        0 <= low <= 1000,
    ensures
        r == at_least(tenths as int, scale, low as int),
        r.wf(),
        r.within(0x101_0000),
{
    greater(to_page(tenths, scale), ratio(low, 100))
}

/// A plain stroke.
pub open spec fn pen(width: Double, color: Color) -> Ink {
    Ink::Stroke { width, round: false, paint: crate::paint::solid(color) }
}

/// The stroke of a wire.
pub open spec fn wire_pen(color: Color) -> Ink {
    Ink::Stroke {
        width: crate::double::spec_ratio(254, 1000).spec_single(),
        round: true,
        paint: crate::paint::solid(color),
    }
}

fn take_pen(width: Double, color: Color) -> (r: Ink)
    ensures
        r == pen(width, color),
{
    Ink::Stroke { width, round: false, paint: opaque(color) }
}

fn take_wire_pen(color: Color) -> (r: Ink)
    ensures
        r == wire_pen(color),
{
    Ink::Stroke { width: ratio(254, 1000).single(), round: true, paint: opaque(color) }
}

fn add_part(marks: &mut Vec<Drawn>, trace: Trace, ink: Ink)
    ensures
        crate::encode::parts(final(marks)@) == crate::encode::parts(old(marks)@).push(
            (trace.model(), ink),
        ),
{
    marks.push(Drawn { trace, ink });
    proof {
        assert(crate::encode::parts(marks@) =~= crate::encode::parts(old(marks)@).push(
            (trace.model(), ink),
        ));
    }
}

/// A line through a point, by how far its ends stand to the right and below.
pub open spec fn slanted(p: Point, dx: Double, dy: Double, ex: Double, ey: Double) -> crate::encode::Traced {
    crate::encode::Traced::Line(
        Point { x: p.x.spec_sum(dx), y: p.y.spec_sum(dy) },
        Point { x: p.x.spec_sum(ex), y: p.y.spec_sum(ey) },
    )
}

/// The mark of a warning: a circle, and a cross in it where a junction is missing.
pub open spec fn warned(
    before: Seq<(crate::encode::Traced, Ink)>,
    warning: ConnectivityDiagnostic,
    scale: Double,
    palette: Palette,
) -> Seq<(crate::encode::Traced, Ink)> {
    let radius = kept_between(60, scale, 45, 175);
    let color = warning_color(warning.kind, palette);
    let circle = before.push(
        (
            crate::encode::Traced::Circle(warning.point, radius),
            pen(at_least(20, scale, 10), color),
        ),
    );
    if warning.kind == ConnectivityDiagnosticKind::MissingJunction {
        let far = radius.spec_product(crate::double::spec_ratio(65, 100));
        let near = far.spec_neg();
        let ink = pen(at_least(15, scale, 8), color);
        circle.push((slanted(warning.point, near, near, far, far), ink)).push(
            (slanted(warning.point, near, far, far, near), ink),
        )
    } else {
        circle
    }
}

fn slant(p: Point, dx: Double, dy: Double, ex: Double, ey: Double) -> (r: Trace)
    requires
        crate::plane::held_point(p),
        dx.wf() && dx.within(0x200_0000),
        dy.wf() && dy.within(0x200_0000),
        ex.wf() && ex.within(0x200_0000),
        ey.wf() && ey.within(0x200_0000),
    ensures
        r.model() == slanted(p, dx, dy, ex, ey),
{
    Trace::Line(Point { x: p.x.plus(dx), y: p.y.plus(dy) }, Point { x: p.x.plus(ex), y: p.y.plus(ey) })
}

fn draw_warning(
    marks: &mut Vec<Drawn>,
    warning: &ConnectivityDiagnostic,
    scale: Double,
    palette: Palette,
)
    requires
        scale_wf(scale),
        crate::plane::held_point(warning.point),
    ensures
        crate::encode::parts(final(marks)@) == warned(
            crate::encode::parts(old(marks)@),
            *warning,
            scale,
            palette,
        ),
{
    let radius = keep_between(60, scale, 45, 175);
    let color = find_warning_color(warning.kind, palette);
    let circle = take_pen(keep_above(20, scale, 10), color);
    add_part(marks, Trace::Circle(warning.point, radius), circle);
    if warning.kind == ConnectivityDiagnosticKind::MissingJunction {
        let far = radius.times(ratio(65, 100));
        let near = far.negated();
        let ink = take_pen(keep_above(15, scale, 8), color);
        add_part(marks, slant(warning.point, near, near, far, far), ink);
        add_part(marks, slant(warning.point, near, far, far, near), ink);
    }
}

/// The marks of the first `n` warnings.
pub open spec fn warnings_marked(
    before: Seq<(crate::encode::Traced, Ink)>,
    warnings: Seq<ConnectivityDiagnostic>,
    scale: Double,
    palette: Palette,
    n: nat,
) -> Seq<(crate::encode::Traced, Ink)>
    decreases n,
{
    if n == 0 {
        before
    } else {
        warned(
            warnings_marked(before, warnings, scale, palette, (n - 1) as nat),
            warnings[n - 1],
            scale,
            palette,
        )
    }
}

/// A wire or a bus that is being drawn, with its ends.
pub open spec fn drafted(
    before: Seq<(crate::encode::Traced, Ink)>,
    wire: WireDraft,
    scale: Double,
    palette: Palette,
) -> Seq<(crate::encode::Traced, Ink)> {
    let radius = kept_between(40, scale, 35, 125);
    let ink = pen(at_least(15, scale, 8), palette.selection);
    before.push(
        (
            crate::encode::Traced::Line(wire.start, wire.current),
            wire_pen(
                if wire.is_bus {
                    palette.bus
                } else {
                    palette.wire
                },
            ),
        ),
    ).push((crate::encode::Traced::Circle(wire.start, radius), ink)).push(
        (crate::encode::Traced::Circle(wire.current, radius), ink),
    )
}

fn draw_draft(marks: &mut Vec<Drawn>, wire: WireDraft, scale: Double, palette: Palette)
    requires
        scale_wf(scale),
    ensures
        crate::encode::parts(final(marks)@) == drafted(
            crate::encode::parts(old(marks)@),
            wire,
            scale,
            palette,
        ),
{
    let color = if wire.is_bus {
        palette.bus
    } else {
        palette.wire
    };
    add_part(marks, Trace::Line(wire.start, wire.current), take_wire_pen(color));
    let radius = keep_between(40, scale, 35, 125);
    let ink = take_pen(keep_above(15, scale, 8), palette.selection);
    add_part(marks, Trace::Circle(wire.start, radius), ink);
    add_part(marks, Trace::Circle(wire.current, radius), ink);
}

/// An end of a wire, moved with what is dragged or left where it is.
pub open spec fn dragged_end(p: Point, moves: bool, dx: Double, dy: Double) -> Point {
    if moves {
        Point { x: p.x.spec_sum(dx), y: p.y.spec_sum(dy) }
    } else {
        p
    }
}

fn drag_end(p: Point, moves: bool, dx: Double, dy: Double) -> (r: Point)
    requires
        crate::plane::held_point(p),
        crate::screen::fair(dx),
        crate::screen::fair(dy),
    ensures
        r == dragged_end(p, moves, dx, dy),
{
    if moves {
        Point { x: p.x.plus(dx), y: p.y.plus(dy) }
    } else {
        p
    }
}

/// The first `n` wires that follow what is dragged.
pub open spec fn wires_dragged(
    before: Seq<(crate::encode::Traced, Ink)>,
    wires: Seq<ConnectedWireMove>,
    dx: Double,
    dy: Double,
    palette: Palette,
    n: nat,
) -> Seq<(crate::encode::Traced, Ink)>
    decreases n,
{
    if n == 0 {
        before
    } else {
        let wire = wires[n - 1];
        wires_dragged(before, wires, dx, dy, palette, (n - 1) as nat).push(
            (
                crate::encode::Traced::Line(
                    dragged_end(wire.start, wire.move_start, dx, dy),
                    dragged_end(wire.end, wire.move_end, dx, dy),
                ),
                wire_pen(palette.wire),
            ),
        )
    }
}

/// What stands on the page over the schematic, but for what is selected: the warnings, the wire that
/// is being drawn, and the wires that follow a drag.
pub open spec fn page_marked(
    warnings: Seq<ConnectivityDiagnostic>,
    draft: Option<WireDraft>,
    wires: Seq<ConnectedWireMove>,
    delta: Option<(Double, Double)>,
    scale: Double,
    palette: Palette,
) -> Seq<(crate::encode::Traced, Ink)> {
    let none = Seq::<(crate::encode::Traced, Ink)>::empty();
    let first = warnings_marked(none, warnings, scale, palette, warnings.len());
    let second = match draft {
        Some(wire) => drafted(first, wire, scale, palette),
        None => first,
    };
    match delta {
        Some((dx, dy)) => wires_dragged(second, wires, dx, dy, palette, wires.len()),
        None => second,
    }
}

/// All points are such that something can be drawn at them.
pub open spec fn warnings_held(warnings: Seq<ConnectivityDiagnostic>) -> bool {
    forall|i: int|
        0 <= i < warnings.len() ==> crate::plane::held_point((#[trigger] warnings[i]).point)
}

/// All ends are such that something can be drawn at them.
pub open spec fn wires_held(wires: Seq<ConnectedWireMove>) -> bool {
    forall|i: int|
        0 <= i < wires.len() ==> crate::plane::held_point((#[trigger] wires[i]).start)
            && crate::plane::held_point(wires[i].end)
}

/// How far something is dragged, where it is.
pub open spec fn delta_wf(delta: Option<(Double, Double)>) -> bool {
    delta matches Some(d) ==> crate::screen::fair(d.0) && crate::screen::fair(d.1)
}

/// What stands on the page over the schematic, but for what is selected.
pub fn mark_page(
    warnings: &Vec<ConnectivityDiagnostic>,
    draft: Option<WireDraft>,
    wires: &Vec<ConnectedWireMove>,
    delta: Option<(Double, Double)>,
    scale: Double,
    palette: Palette,
) -> (r: Vec<Drawn>)
    requires
        scale_wf(scale),
        warnings_held(warnings@),
        wires_held(wires@),
        delta_wf(delta),
    ensures
        crate::encode::parts(r@) == page_marked(
            warnings@,
            draft,
            wires@,
            delta,
            scale,
            palette,
        ),
{
    let mut marks: Vec<Drawn> = Vec::new();
    let ghost none = Seq::<(crate::encode::Traced, Ink)>::empty();
    proof {
        assert(crate::encode::parts(marks@) =~= none);
    }
    let mut i: usize = 0;
    while i < warnings.len()
        invariant
            i <= warnings@.len(),
            scale_wf(scale),
            warnings_held(warnings@),
            crate::encode::parts(marks@) == warnings_marked(
                none,
                warnings@,
                scale,
                palette,
                i as nat,
            ),
        decreases warnings@.len() - i,
    {
        draw_warning(&mut marks, &warnings[i], scale, palette);
        i = i + 1;
    }
    match draft {
        Some(wire) => {
            draw_draft(&mut marks, wire, scale, palette);
        },
        None => {},
    }
    match delta {
        Some((dx, dy)) => {
            let ghost before = crate::encode::parts(marks@);
            let mut k: usize = 0;
            while k < wires.len()
                invariant
                    k <= wires@.len(),
                    wires_held(wires@),
                    crate::screen::fair(dx),
                    crate::screen::fair(dy),
                    crate::encode::parts(marks@) == wires_dragged(
                        before,
                        wires@,
                        dx,
                        dy,
                        palette,
                        k as nat,
                    ),
                decreases wires@.len() - k,
            {
                let wire = &wires[k];
                let start = drag_end(wire.start, wire.move_start, dx, dy);
                let end = drag_end(wire.end, wire.move_end, dx, dy);
                add_part(&mut marks, Trace::Line(start, end), take_wire_pen(palette.wire));
                k = k + 1;
            }
        },
        None => {},
    }
    marks
}

/// A layer of the page.
pub enum Layer {
    /// The sheet as it was encoded, or as a foreign program drew it.
    Sheet { foreign: bool },
    /// The sheet without what is dragged.
    DragBase,
    Marks(Vec<Drawn>),
    /// Marks moved by millimetres of the page.
    Moved(Vec<Drawn>, Double, Double),
}

/// A layer of the page, as a value.
pub ghost enum Layered {
    Sheet { foreign: bool },
    DragBase,
    Marks(Seq<(crate::encode::Traced, Ink)>),
    Moved(Seq<(crate::encode::Traced, Ink)>, Double, Double),
}

impl Layer {
    pub open spec fn model(self) -> Layered {
        match self {
            Layer::Sheet { foreign } => Layered::Sheet { foreign },
            Layer::DragBase => Layered::DragBase,
            Layer::Marks(marks) => Layered::Marks(crate::encode::parts(marks@)),
            Layer::Moved(marks, dx, dy) => Layered::Moved(crate::encode::parts(marks@), dx, dy),
        }
    }
}

/// Layers, as values.
pub open spec fn layers(v: Seq<Layer>) -> Seq<Layered> {
    v.map_values(|l: Layer| l.model())
}

fn add_layer(all: &mut Vec<Layer>, layer: Layer)
    ensures
        layers(final(all)@) == layers(old(all)@).push(layer.model()),
{
    all.push(layer);
    proof {
        assert(layers(all@) =~= layers(old(all)@).push(layer.model()));
    }
}

/// What the page shows.
pub struct PageView<'a> {
    pub primitives: &'a Vec<Primitive>,
    pub objects: &'a Vec<SceneObject>,
    pub warnings: &'a Vec<ConnectivityDiagnostic>,
    /// All of the sheet is drawn.
    pub complete: bool,
    /// There is a picture by a foreign program.
    pub has_foreign: bool,
    /// How many pixels a millimetre takes.
    pub scale: Double,
    /// Something is being dragged.
    pub dragging: bool,
    /// How far, in millimetres.
    pub delta: Option<(Double, Double)>,
    pub dragged_wires: &'a Vec<ConnectedWireMove>,
    pub draft: Option<WireDraft>,
    /// The change to this sheet that is pointed out.
    pub highlight: Option<(ChangeOrigin, &'a Vec<String>)>,
    pub selection: &'a Selection,
}

impl<'a> PageView<'a> {
    pub open spec fn wf(self) -> bool {
        &&& crate::primitives::all_wf(self.primitives@)
        &&& warnings_held(self.warnings@)
        &&& wires_held(self.dragged_wires@)
        &&& delta_wf(self.delta)
        &&& scale_wf(self.scale)
    }
}

/// The frame round an object.
pub open spec fn object_frame(
    primitives: Seq<Primitive>,
    object: SceneObject,
    scale: Double,
    palette: Palette,
) -> Seq<(crate::encode::Traced, Ink)> {
    if object.first <= object.end <= primitives.len() {
        crate::encode::frame_round(
            crate::primitives::shapes(primitives),
            object.first as int,
            object.end as int,
            crate::encode::halo_width(scale),
            palette,
        )
    } else {
        Seq::empty()
    }
}

/// The picture of an object.
pub open spec fn object_picture(primitives: Seq<Primitive>, object: SceneObject, palette: Palette) -> Seq<
    (crate::encode::Traced, Ink),
> {
    if object.first <= object.end <= primitives.len() {
        crate::encode::picture(
            crate::primitives::shapes(primitives),
            object.first as int,
            object.end as int,
            Seq::empty(),
            palette,
        )
    } else {
        Seq::empty()
    }
}

/// The frames round those of the first `n` objects that a change names.
pub open spec fn highlighted(
    before: Seq<Layered>,
    view: PageView,
    uuids: Seq<Seq<char>>,
    palette: Palette,
    n: nat,
) -> Seq<Layered>
    decreases n,
{
    if n == 0 {
        before
    } else {
        let earlier = highlighted(before, view, uuids, palette, (n - 1) as nat);
        let object = view.objects@[n - 1];
        if uuids.contains(object.uuid@) {
            earlier.push(
                Layered::Marks(object_frame(view.primitives@, object, view.scale, palette)),
            )
        } else {
            earlier
        }
    }
}

/// What is selected, each object with the frame round it; while it is dragged it is painted where it
/// is dragged to.
pub open spec fn selected(before: Seq<Layered>, view: PageView, palette: Palette, n: nat) -> Seq<
    Layered,
>
    decreases n,
{
    if n == 0 {
        before
    } else {
        let earlier = selected(before, view, palette, (n - 1) as nat);
        match crate::selection::object_from(view.objects@, view.selection.uuids@[n - 1]@, 0) {
            None => earlier,
            Some(i) => {
                let object = view.objects@[i];
                let frame = object_frame(view.primitives@, object, view.scale, palette);
                match view.delta {
                    Some((dx, dy)) => earlier.push(
                        Layered::Moved(object_picture(view.primitives@, object, palette), dx, dy),
                    ).push(Layered::Moved(frame, dx, dy)),
                    None => earlier.push(Layered::Marks(frame)),
                }
            },
        }
    }
}

/// The colours in which a change is pointed out.
pub open spec fn highlight_palette(origin: ChangeOrigin, palette: Palette) -> Palette {
    Palette { selection: crate::strip::origin_color(origin, palette), ..palette }
}

/// What the page shows, layer by layer.
pub open spec fn page_layers(view: PageView, palette: Palette) -> Seq<Layered> {
    let base = seq![
        if view.dragging {
            Layered::DragBase
        } else {
            Layered::Sheet { foreign: !view.complete && view.has_foreign }
        },
    ];
    let pointed = match view.highlight {
        Some((origin, uuids)) => highlighted(
            base,
            view,
            crate::text::views(uuids@),
            highlight_palette(origin, palette),
            view.objects@.len(),
        ),
        None => base,
    };
    selected(
        pointed.push(
            Layered::Marks(
                page_marked(
                    view.warnings@,
                    view.draft,
                    view.dragged_wires@,
                    view.delta,
                    view.scale,
                    palette,
                ),
            ),
        ),
        view,
        palette,
        view.selection.uuids@.len(),
    )
}

fn frame_object(view: &PageView, object: &SceneObject, palette: Palette) -> (r: Vec<Drawn>)
    requires
        view.wf(),
    ensures
        crate::encode::parts(r@) == object_frame(view.primitives@, *object, view.scale, palette),
{
    append_selection(view.primitives, object.first, object.end, view.scale, palette)
}

fn paint_object(view: &PageView, object: &SceneObject, palette: Palette) -> (r: Vec<Drawn>)
    requires
        view.wf(),
    ensures
        crate::encode::parts(r@) == object_picture(view.primitives@, *object, palette),
{
    if object.first <= object.end && object.end <= view.primitives.len() {
        encode_primitives(view.primitives, object.first, object.end, palette)
    } else {
        let none: Vec<Drawn> = Vec::new();
        proof {
            assert(crate::encode::parts(none@) =~= Seq::empty());
        }
        none
    }
}

fn draw_highlight(
    all: &mut Vec<Layer>,
    view: &PageView,
    origin: ChangeOrigin,
    uuids: &Vec<String>,
    palette: Palette,
)
    requires
        view.wf(),
    ensures
        layers(final(all)@) == highlighted(
            layers(old(all)@),
            *view,
            crate::text::views(uuids@),
            highlight_palette(origin, palette),
            view.objects@.len(),
        ),
{
    let colors = Palette { selection: find_origin_color(origin, palette), ..palette };
    let mut i: usize = 0;
    while i < view.objects.len()
        invariant
            i <= view.objects@.len(),
            view.wf(),
            layers(all@) == highlighted(
                layers(old(all)@),
                *view,
                crate::text::views(uuids@),
                colors,
                i as nat,
            ),
        decreases view.objects@.len() - i,
    {
        let object = &view.objects[i];
        if has_name(uuids, object.uuid.as_str()) {
            add_layer(all, Layer::Marks(frame_object(view, object, colors)));
        }
        i = i + 1;
    }
}

fn draw_selected(all: &mut Vec<Layer>, view: &PageView, palette: Palette)
    requires
        view.wf(),
    ensures
        layers(final(all)@) == selected(
            layers(old(all)@),
            *view,
            palette,
            view.selection.uuids@.len(),
        ),
{
    let mut n: usize = 0;
    while n < view.selection.uuids.len()
        invariant
            n <= view.selection.uuids@.len(),
            view.wf(),
            layers(all@) == selected(layers(old(all)@), *view, palette, n as nat),
        decreases view.selection.uuids@.len() - n,
    {
        match find_object(view.objects, view.selection.uuids[n].as_str()) {
            None => {},
            Some(i) => {
                let object = &view.objects[i];
                match view.delta {
                    Some((dx, dy)) => {
                        let picture = paint_object(view, object, palette);
                        add_layer(all, Layer::Moved(picture, dx, dy));
                        let frame = frame_object(view, object, palette);
                        add_layer(all, Layer::Moved(frame, dx, dy));
                    },
                    None => {
                        let frame = frame_object(view, object, palette);
                        add_layer(all, Layer::Marks(frame));
                    },
                }
            },
        }
        n = n + 1;
    }
}

/// What the page shows, layer by layer.
pub fn draw_page(view: &PageView, palette: Palette) -> (r: Vec<Layer>)
    requires
        view.wf(),
    ensures
        layers(r@) == page_layers(*view, palette),
{
    let mut all: Vec<Layer> = Vec::new();
    proof {
        assert(layers(all@) =~= Seq::empty());
    }
    let base = if view.dragging {
        Layer::DragBase
    } else {
        Layer::Sheet { foreign: !view.complete && view.has_foreign }
    };
    let ghost model = base.model();
    add_layer(&mut all, base);
    proof {
        assert(layers(all@) =~= seq![model]);
    }
    match view.highlight {
        Some((origin, uuids)) => {
            draw_highlight(&mut all, view, origin, uuids, palette);
        },
        None => {},
    }
    let marks = mark_page(
        view.warnings,
        view.draft,
        view.dragged_wires,
        view.delta,
        view.scale,
        palette,
    );
    add_layer(&mut all, Layer::Marks(marks));
    draw_selected(&mut all, view, palette);
    all
}

/// The change that is pointed out: none while something is dragged or where changes are not.
pub open spec fn pointed_out(
    events: Seq<ChangeEvent>,
    id: Option<u64>,
    dragging: bool,
    on: bool,
) -> Option<int> {
    match id {
        Some(i) if !dragging && on => crate::change_timeline::event_from(events, i, 0),
        _ => None,
    }
}

/// The change that is pointed out.
pub fn find_pointed_out<'a>(
    timeline: &'a ChangeTimeline,
    id: Option<u64>,
    dragging: bool,
    on: bool,
) -> (r: Option<&'a ChangeEvent>)
    ensures
        match pointed_out(timeline@, id, dragging, on) {
            Some(i) => r matches Some(e) && *e == timeline@[i],
            None => r is None,
        },
{
    if dragging || !on {
        return None;
    }
    match id {
        Some(i) => timeline.event(i),
        None => None,
    }
}

/// The box that is drawn round what is to be selected.
pub open spec fn box_painted(
    marks: Seq<crate::paint::Painted>,
    start: Point,
    current: Point,
    palette: Palette,
) -> Seq<crate::paint::Painted> {
    let outline = Outline::Rect(
        ScreenRect {
            x0: crate::geometry::spec_lesser(start.x, current.x),
            y0: crate::geometry::spec_lesser(start.y, current.y),
            x1: crate::geometry::spec_greater(start.x, current.x),
            y1: crate::geometry::spec_greater(start.y, current.y),
        },
    );
    crate::paint::plated(
        marks,
        outline,
        crate::paint::sheer(palette.selection, 12),
        crate::double::spec_ratio(125, 100),
        crate::paint::solid(palette.selection),
    )
}

/// Paints the box that is drawn round what is to be selected.
pub fn draw_selection_box(canvas: &mut Canvas, start: Point, current: Point, palette: Palette)
    requires
        start.x.wf() && start.y.wf(),
        current.x.wf() && current.y.wf(),
    ensures
        final(canvas)@ == box_painted(old(canvas)@, start, current, palette),
{
    let rect = ScreenRect {
        x0: lesser(start.x, current.x),
        y0: lesser(start.y, current.y),
        x1: greater(start.x, current.x),
        y1: greater(start.y, current.y),
    };
    canvas.plate(
        Outline::Rect(rect),
        with_alpha(palette.selection, 12),
        ratio(125, 100),
        opaque(palette.selection),
    );
}

} // verus!
