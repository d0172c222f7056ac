//! All that stands over the page on the window, from the bottom to the top, and the texts in it
//! that can be selected.

use crate::change_timeline::ChangeTimeline;
use crate::connectivity::ConnectivityDiagnostic;
use crate::dialogs::{LabelEdit, PropertyEdit, SheetEdit, SheetPinEdit};
use crate::double::{Double, CARRY, UNIT};
use crate::frame::draw_selection_box;
use crate::geometry::Point;
use crate::native_font::{NativeFont, ShapedText};
use crate::paint::{Canvas, Form, Mark};
use crate::panels::{
    draw_diagnostics, draw_external_preview, draw_inspector, draw_label_edit, draw_property_edit,
    draw_search, draw_sheet_edit, draw_sheet_pin_edit, find_inspected,
};
use crate::readers::TextAlign;
use crate::scene_builder::SceneObject;
use crate::search::SearchState;
use crate::selection::Selection;
use crate::strip::{draw_filmstrip, draw_timeline, SheetCard};
use crate::text_select::{find_target, SelectableText};
use crate::theme::Palette;
use crate::toolbar::{draw_toolbar, SessionState, ToolState};
use vstd::prelude::*;

verus! {

/// What stands on the window.
pub struct WindowView<'a> {
    pub width: Double,
    pub height: Double,
    pub palette: Palette,
    pub filename: &'a str,
    pub status: &'a str,
    pub session: SessionState,
    pub tools: &'a ToolState,
    pub cursor: Option<Point>,
    /// The corners of the box round what is to be selected.
    pub selection_box: Option<(Point, Point)>,
    pub scroll: Double,
    pub cards: &'a Vec<SheetCard>,
    pub active: usize,
    pub timeline: &'a ChangeTimeline,
    pub timeline_scroll: usize,
    pub highlighted: Option<u64>,
    pub now: u64,
    pub wall: u64,
    pub preview: Option<&'a Vec<String>>,
    pub warnings: &'a Vec<ConnectivityDiagnostic>,
    pub selection: &'a Selection,
    pub objects: &'a Vec<SceneObject>,
    pub search: Option<&'a SearchState>,
    pub property: Option<&'a PropertyEdit>,
    pub label: Option<&'a LabelEdit>,
    pub sheet: Option<&'a SheetEdit>,
    pub sheet_pin: Option<&'a SheetPinEdit>,
}

impl<'a> WindowView<'a> {
    pub open spec fn wf(self) -> bool {
        &&& crate::screen::plain(self.width)
        &&& crate::screen::plain(self.height)
        &&& crate::screen::plain(self.scroll)
        &&& self.filename@.len() <= 0x1000_0000
        &&& self.tools.wf()
        &&& crate::toolbar::cursor_wf(self.cursor)
        &&& self.selection_box matches Some(b) ==> b.0.x.wf() && b.0.y.wf() && b.1.x.wf()
            && b.1.y.wf()
        &&& crate::strip::cards_wf(self.cards@)
        &&& self.timeline@.len() <= crate::controls::MOST_SHEETS
        &&& forall|i: int|
            0 <= i < self.objects@.len() ==> (#[trigger] self.objects@[i]).properties@.len()
                <= crate::panels::MOST_PROPERTIES
        &&& self.label matches Some(e) ==> crate::panels::written_out(e.point)
        &&& self.sheet matches Some(e) ==> crate::panels::written_out(e.point)
        &&& self.sheet_pin matches Some(e) ==> crate::panels::written_out(e.point)
    }
}

/// The box, the tools, the sheets and the timeline.
pub open spec fn edges_painted<F: Fn(String) -> Option<ShapedText> + Copy>(
    view: WindowView,
    font: NativeFont<F>,
) -> Seq<crate::paint::Painted> {
    let none = Seq::<crate::paint::Painted>::empty();
    let boxed = match view.selection_box {
        Some((start, current)) => crate::frame::box_painted(none, start, current, view.palette),
        None => none,
    };
    let barred = crate::toolbar::toolbar_painted(
        boxed,
        view.width,
        view.height,
        view.filename@,
        view.status@,
        view.session,
        *view.tools,
        view.cursor,
        font,
        view.palette,
    );
    let filmed = crate::strip::film_painted(
        barred,
        view.width,
        view.height,
        view.scroll,
        view.cards@,
        view.active as int,
        view.palette,
    );
    crate::strip::timeline_painted(
        filmed,
        view.width,
        view.height,
        view.timeline@,
        view.timeline_scroll as int,
        view.highlighted,
        view.now,
        view.wall,
        view.palette,
    )
}

fn draw_edges<F: Fn(String) -> Option<ShapedText> + Copy>(
    view: &WindowView,
    font: &NativeFont<F>,
) -> (r: Canvas)
    requires
        view.wf(),
        font.wf(),
    ensures
        r@ == edges_painted(*view, *font),
{
    let mut canvas = Canvas::new();
    match view.selection_box {
        Some((start, current)) => {
            draw_selection_box(&mut canvas, start, current, view.palette);
        },
        None => {},
    }
    draw_toolbar(
        &mut canvas,
        view.width,
        view.height,
        view.filename,
        view.status,
        view.session,
        view.tools,
        view.cursor,
        font,
        view.palette,
    );
    draw_filmstrip(
        &mut canvas,
        view.width,
        view.height,
        view.scroll,
        view.cards,
        view.active,
        view.palette,
    );
    draw_timeline(
        &mut canvas,
        view.width,
        view.height,
        view.timeline,
        view.timeline_scroll,
        view.highlighted,
        view.now,
        view.wall,
        view.palette,
    );
    canvas
}

/// What came from outside, the warnings and the properties.
pub open spec fn cards_added(marks: Seq<crate::paint::Painted>, view: WindowView) -> Seq<
    crate::paint::Painted,
> {
    let previewed = match view.preview {
        Some(lines) => crate::panels::preview_painted(
            marks,
            view.width,
            view.palette,
            crate::text::views(lines@),
        ),
        None => marks,
    };
    let warned = crate::panels::warnings_painted(
        previewed,
        view.width,
        view.height,
        view.palette,
        view.tools.settings,
        view.warnings@,
    );
    match crate::panels::inspected(*view.selection, view.objects@) {
        Some(i) => crate::panels::inspector_painted(
            warned,
            view.width,
            view.height,
            view.palette,
            view.objects@[i],
        ),
        None => warned,
    }
}

fn add_cards(canvas: &mut Canvas, view: &WindowView)
    requires
        view.wf(),
    ensures
        final(canvas)@ == cards_added(old(canvas)@, *view),
{
    match view.preview {
        Some(lines) => {
            draw_external_preview(canvas, view.width, view.palette, lines);
        },
        None => {},
    }
    draw_diagnostics(
        canvas,
        view.width,
        view.height,
        view.palette,
        &view.tools.settings,
        view.warnings,
    );
    match find_inspected(view.selection, view.objects) {
        Some(i) => {
            draw_inspector(canvas, view.width, view.height, view.palette, &view.objects[i]);
        },
        None => {},
    }
}

/// The search and the dialogs.
pub open spec fn dialogs_added(marks: Seq<crate::paint::Painted>, view: WindowView) -> Seq<
    crate::paint::Painted,
> {
    let w = view.width;
    let p = view.palette;
    let searched = match view.search {
        Some(s) => crate::panels::dialog_painted(
            marks,
            crate::panels::dialog_area(w, 260, 12, 60),
            p.accent,
            p,
            crate::panels::search_lines(*s, p),
        ),
        None => marks,
    };
    let property = match view.property {
        Some(e) => crate::panels::dialog_painted(
            searched,
            crate::panels::dialog_area(w, 250, 90, 82),
            p.selection,
            p,
            crate::panels::value_lines(
                "Edit "@ + e.name@,
                130,
                e.value@,
                "Enter · atomic save    Esc · cancel"@,
                p,
            ),
        ),
        None => searched,
    };
    let label = match view.label {
        Some(e) => crate::panels::dialog_painted(
            property,
            crate::panels::dialog_area(w, 250, 90, 82),
            p.accent,
            p,
            crate::panels::value_lines(
                "Local label at "@ + crate::geometry::place_text(e.point),
                120,
                e.value@,
                "Enter · atomic place    Esc · cancel"@,
                p,
            ),
        ),
        None => property,
    };
    let sheet = match view.sheet {
        Some(e) => crate::panels::dialog_painted(
            label,
            crate::panels::dialog_area(w, 280, 82, 132),
            p.accent,
            p,
            crate::panels::sheet_lines(*e, p),
        ),
        None => label,
    };
    match view.sheet_pin {
        Some(e) => crate::panels::dialog_painted(
            sheet,
            crate::panels::dialog_area(w, 270, 90, 104),
            p.accent,
            p,
            crate::panels::sheet_pin_lines(*e, p),
        ),
        None => sheet,
    }
}

fn add_dialogs(canvas: &mut Canvas, view: &WindowView)
    requires
        view.wf(),
    ensures
        final(canvas)@ == dialogs_added(old(canvas)@, *view),
{
    match view.search {
        Some(search) => {
            draw_search(canvas, view.width, view.palette, search);
        },
        None => {},
    }
    match view.property {
        Some(edit) => {
            draw_property_edit(canvas, view.width, view.palette, edit);
        },
        None => {},
    }
    match view.label {
        Some(edit) => {
            draw_label_edit(canvas, view.width, view.palette, edit);
        },
        None => {},
    }
    match view.sheet {
        Some(edit) => {
            draw_sheet_edit(canvas, view.width, view.palette, edit);
        },
        None => {},
    }
    match view.sheet_pin {
        Some(edit) => {
            draw_sheet_pin_edit(canvas, view.width, view.palette, edit);
        },
        None => {},
    }
}

/// All that stands over the page, from the bottom to the top.
pub open spec fn window_painted<F: Fn(String) -> Option<ShapedText> + Copy>(
    view: WindowView,
    font: NativeFont<F>,
) -> Seq<crate::paint::Painted> {
    dialogs_added(cards_added(edges_painted(view, font), view), view)
}

/// Paints all that stands over the page, but for what is selected of the texts.
pub fn draw_window<F: Fn(String) -> Option<ShapedText> + Copy>(
    view: &WindowView,
    font: &NativeFont<F>,
) -> (r: Canvas)
    requires
        view.wf(),
        font.wf(),
    ensures
        r@ == window_painted(*view, *font),
{
    let mut canvas = draw_edges(view, font);
    add_cards(&mut canvas, view);
    add_dialogs(&mut canvas, view);
    canvas
}

/// The number can be computed with.
fn is_number(d: Double, bound: i64) -> (r: bool)
    requires
        0 <= bound <= 0x100_0000,
    ensures
        r == (d.wf() && d.within(bound as int)),
{
    let normal = if d.mantissa == 0 {
        !d.negative && d.exponent == 0
    } else {
        UNIT <= d.mantissa && d.mantissa < CARRY
    };
    normal && (d.mantissa == 0 || (-bound <= d.exponent && d.exponent <= bound))
}

/// The words of a mark, where they stand on the window: their size, place and side.
pub open spec fn words_of(mark: crate::paint::Painted) -> Option<(Double, Point, TextAlign)> {
    match mark.form {
        Form::Words(size, at, align) => if size.wf() && size.within(1000) && crate::screen::fair(
            at.x,
        ) && crate::screen::fair(at.y) {
            Some((size, at, align))
        } else {
            None
        },
        _ => None,
    }
}

/// The mark gives a text to select.
pub open spec fn mark_is_target<F: Fn(String) -> Option<ShapedText> + Copy>(
    mark: crate::paint::Painted,
    font: NativeFont<F>,
    ui_scale: Double,
) -> bool {
    words_of(mark) matches Some(w) && crate::text_select::is_target(
        font,
        mark.words,
        crate::text_select::shown_size(w.0, ui_scale),
    )
}

/// The text is that of the mark.
pub open spec fn target_is_of<F: Fn(String) -> Option<ShapedText> + Copy>(
    t: SelectableText,
    mark: crate::paint::Painted,
    font: NativeFont<F>,
    ui_scale: Double,
) -> bool {
    words_of(mark) matches Some(w) && crate::text_select::is_target_of(
        t,
        font,
        mark.words,
        crate::text_select::shown_size(w.0, ui_scale),
        w.1,
        w.2,
    )
}

/// The marks among the first `n` that give a text to select, in order.
pub open spec fn targets_among<F: Fn(String) -> Option<ShapedText> + Copy>(
    marks: Seq<crate::paint::Painted>,
    font: NativeFont<F>,
    ui_scale: Double,
    n: nat,
) -> Seq<crate::paint::Painted>
    decreases n,
{
    if n == 0 {
        Seq::empty()
    } else {
        let before = targets_among(marks, font, ui_scale, (n - 1) as nat);
        if mark_is_target(marks[n - 1], font, ui_scale) {
            before.push(marks[n - 1])
        } else {
            before
        }
    }
}

fn target_of_mark<F: Fn(String) -> Option<ShapedText> + Copy>(
    mark: &Mark,
    font: &NativeFont<F>,
    ui_scale: Double,
) -> (r: Option<SelectableText>)
    requires
        font.wf(),
        ui_scale.wf(),
        ui_scale.within(1000),
    ensures
        r is Some <==> mark_is_target(mark.model(), *font, ui_scale),
        r matches Some(t) ==> target_is_of(t, mark.model(), *font, ui_scale),
{
    match mark.form {
        Form::Words(size, at, align) => {
            if is_number(size, 1000) && is_number(at.x, 0x100_0000) && is_number(at.y, 0x100_0000) {
                find_target(font, ui_scale, mark.words.as_str(), size, at, align)
            } else {
                None
            }
        },
        _ => None,
    }
}

/// Adds the texts on the window that can be selected to those of the page.
pub fn find_targets<F: Fn(String) -> Option<ShapedText> + Copy>(
    targets: &mut Vec<SelectableText>,
    canvas: &Canvas,
    font: &NativeFont<F>,
    ui_scale: Double,
)
    requires
        font.wf(),
        ui_scale.wf(),
        ui_scale.within(1000),
    ensures
        ({
            let found = targets_among(canvas@, *font, ui_scale, canvas@.len());
            &&& final(targets)@.len() == old(targets)@.len() + found.len()
            &&& final(targets)@.take(old(targets)@.len() as int) == old(targets)@
            &&& forall|k: int|
                0 <= k < found.len() ==> target_is_of(
                    #[trigger] final(targets)@[old(targets)@.len() + k],
                    found[k],
                    *font,
                    ui_scale,
                )
        }),
        crate::text_select::all_wf(old(targets)@) ==> crate::text_select::all_wf(final(targets)@),
{
    let ghost before = targets@;
    let mut i: usize = 0;
    proof {
        assert(before.take(before.len() as int) =~= before);
    }
    while i < canvas.marks.len()
        invariant
            i <= canvas.marks@.len(),
            font.wf(),
            ui_scale.wf(),
            ui_scale.within(1000),
            targets@.len() == before.len() + targets_among(
                canvas@,
                *font,
                ui_scale,
                i as nat,
            ).len(),
            targets@.take(before.len() as int) == before,
            forall|k: int|
                before.len() <= k < targets@.len() ==> target_is_of(
                    #[trigger] targets@[k],
                    targets_among(canvas@, *font, ui_scale, i as nat)[k - before.len()],
                    *font,
                    ui_scale,
                ),
        decreases canvas.marks@.len() - i,
    {
        let ghost earlier = targets@;
        let mark = &canvas.marks[i];
        assert(canvas@[i as int] == mark.model());
        match target_of_mark(mark, font, ui_scale) {
            Some(t) => {
                targets.push(t);
                proof {
                    assert(targets@.take(before.len() as int) =~= earlier.take(
                        before.len() as int,
                    ));
                    assert forall|k: int| before.len() <= k < targets@.len() implies target_is_of(
                        #[trigger] targets@[k],
                        targets_among(canvas@, *font, ui_scale, (i + 1) as nat)[k
                            - before.len()],
                        *font,
                        ui_scale,
                    ) by {
                        if k < earlier.len() {
                            assert(targets@[k] == earlier[k]);
                        }
                    }
                }
            },
            None => {},
        }
        i = i + 1;
    }
    proof {
        assert(canvas@.len() == canvas.marks@.len());
        let found = targets_among(canvas@, *font, ui_scale, canvas@.len());
        assert forall|k: int| 0 <= k < found.len() implies target_is_of(
            #[trigger] targets@[before.len() + k],
            found[k],
            *font,
            ui_scale,
        ) by {}
        if crate::text_select::all_wf(before) {
            assert forall|k: int| 0 <= k < targets@.len() implies (#[trigger] targets@[k]).wf() by {
                if k < before.len() {
                    assert(targets@.take(before.len() as int)[k] == before[k]);
                } else {
                    assert(target_is_of(
                        targets@[k],
                        found[k - before.len()],
                        *font,
                        ui_scale,
                    ));
                }
            }
        }
    }
}

} // verus!
