//! The panels that stand over the page: the dialogs, the search, the properties of what is
//! selected, what came from outside, and the warnings.

use crate::connectivity::ConnectivityDiagnostic;
use crate::controls::{diagnostics_collapse_rect, diagnostics_panel_rect, find_line_height};
use crate::dialogs::{LabelEdit, PropertyEdit, SheetEdit, SheetEditField, SheetPinEdit};
use crate::double::Double;
use crate::geometry::{format_place, greater, lesser, Point};
use crate::paint::{enter, go, in_tenths, opaque, with_alpha, Canvas, Entry, Outline};
use crate::scene_builder::SceneObject;
use crate::screen::{
    pixels, ScreenRect, DIAGNOSTICS_HEADER_HEIGHT, FILMSTRIP_HEIGHT, SIDEBAR_WIDTH, STATUS_HEIGHT,
};
use crate::search::SearchState;
use crate::selection::{find_object, kind_name, Selection};
use crate::text::{joined, joined3, to_decimal};
use crate::theme::{Color, Palette};
use crate::ui_text::truncate_ui;
use crate::viewer_settings::ViewerSettings;
use vstd::prelude::*;

verus! {

/// A box in the middle of the window, `top` below the status, half of it `half` wide.
pub open spec fn dialog_area(width: Double, half: int, top: int, height: int) -> ScreenRect {
    let middle = width.spec_quotient(crate::screen::px(2));
    ScreenRect {
        x0: crate::geometry::spec_greater(crate::paint::off(middle, -half), crate::screen::px(12)),
        y0: crate::screen::px(STATUS_HEIGHT + top),
        x1: crate::geometry::spec_lesser(
            crate::paint::off(middle, half),
            crate::paint::off(width, -12),
        ),
        y1: crate::screen::px(STATUS_HEIGHT + top + height),
    }
}

fn dialog_rect(width: Double, half: i64, top: i64, height: i64) -> (r: ScreenRect)
    requires
        crate::screen::plain(width),
        0 <= half <= 1000,
        0 <= top <= 1000,
        0 <= height <= 1000,
    ensures
        r == dialog_area(width, half as int, top as int, height as int),
        r.wf(),
        r.within(0x2_0000),
{
    let middle = width.divided_by(pixels(2));
    assert(middle.within(0x1_1000) && width.within(0x1_0000));
    ScreenRect {
        x0: greater(go(middle, -half), pixels(12)),
        y0: pixels(STATUS_HEIGHT + top),
        x1: lesser(go(middle, half), go(width, -12)),
        y1: pixels(STATUS_HEIGHT + top + height),
    }
}

/// A dialog: a card with an edge and lines of words.
pub open spec fn dialog_painted(
    marks: Seq<crate::paint::Painted>,
    area: ScreenRect,
    edge: Color,
    palette: Palette,
    lines: Seq<crate::paint::Entered>,
) -> Seq<crate::paint::Painted> {
    crate::paint::listed(
        crate::paint::plated(
            marks,
            Outline::Rounded(area, crate::screen::px(7)),
            crate::paint::solid(palette.card),
            crate::paint::tenths(15),
            crate::paint::solid(edge),
        ),
        crate::paint::off(area.x0, 14),
        area.y0,
        lines,
        lines.len(),
    )
}

fn draw_dialog(
    canvas: &mut Canvas,
    area: ScreenRect,
    edge: Color,
    palette: Palette,
    lines: &Vec<Entry>,
)
    requires
        area.wf(),
        area.within(0x2_0000),
        crate::paint::all_lines_wf(lines@),
    ensures
        final(canvas)@ == dialog_painted(
            old(canvas)@,
            area,
            edge,
            palette,
            crate::paint::entered(lines@),
        ),
{
    canvas.plate(
        Outline::Rounded(area, pixels(7)),
        opaque(palette.card),
        in_tenths(15),
        opaque(edge),
    );
    canvas.list(go(area.x0, 14), area.y0, lines);
}

/// An empty list of lines.
fn no_lines() -> (r: Vec<Entry>)
    ensures
        crate::paint::entered(r@) == Seq::<crate::paint::Entered>::empty(),
        crate::paint::all_lines_wf(r@),
{
    let r: Vec<Entry> = Vec::new();
    proof {
        assert(crate::paint::entered(r@) =~= Seq::<crate::paint::Entered>::empty());
    }
    r
}

/// A point whose coordinates can be written out.
pub open spec fn written_out(p: Point) -> bool {
    p.x.wf() && p.x.exponent <= 60 && p.y.wf() && p.y.exponent <= 60
}

/// The lines of the dialog of a sheet's pin.
pub open spec fn sheet_pin_lines(edit: SheetPinEdit, palette: Palette) -> Seq<
    crate::paint::Entered,
> {
    let none = Seq::<crate::paint::Entered>::empty();
    none.push(
        crate::paint::an_entry(
            "Sheet pin at "@ + crate::geometry::place_text(edit.point) + " · type "@ + edit.kind@,
            130,
            23,
            crate::paint::solid(palette.accent),
        ),
    ).push(
        crate::paint::an_entry(
            "Name: "@ + crate::ui_text::truncated(edit.name@, 54) + "▏"@,
            140,
            52,
            crate::paint::solid(palette.text),
        ),
    ).push(
        crate::paint::an_entry(
            "Tab · cycle type    Enter · place    Esc · cancel"@,
            100,
            86,
            crate::paint::solid(palette.text),
        ),
    )
}

/// Paints the dialog of a sheet's pin.
pub fn draw_sheet_pin_edit(
    canvas: &mut Canvas,
    width: Double,
    palette: Palette,
    edit: &SheetPinEdit,
)
    requires
        crate::screen::plain(width),
        written_out(edit.point),
    ensures
        final(canvas)@ == dialog_painted(
            old(canvas)@,
            dialog_area(width, 270, 90, 104),
            palette.accent,
            palette,
            sheet_pin_lines(*edit, palette),
        ),
{
    let mut lines = no_lines();
    let mut title = joined("Sheet pin at ", format_place(edit.point).as_str());
    title.append(" · type ");
    title.append(edit.kind.as_str());
    enter(&mut lines, title, 130, 23, opaque(palette.accent));
    let name = joined3("Name: ", truncate_ui(edit.name.as_str(), 54).as_str(), "▏");
    enter(&mut lines, name, 140, 52, opaque(palette.text));
    let help = "Tab · cycle type    Enter · place    Esc · cancel".to_owned();
    enter(&mut lines, help, 100, 86, opaque(palette.text));
    draw_dialog(canvas, dialog_rect(width, 270, 90, 104), palette.accent, palette, &lines);
}

/// A field of the dialog of a sheet: the one that is turned to stands out and shows where the
/// next letter goes.
pub open spec fn field_line(
    label: Seq<char>,
    value: Seq<char>,
    active: bool,
    down: int,
    palette: Palette,
) -> crate::paint::Entered {
    crate::paint::an_entry(
        label + ": "@ + crate::ui_text::truncated(value, 54) + (if active {
            "▏"@
        } else {
            ""@
        }),
        140,
        down,
        crate::paint::solid(
            if active {
                palette.accent
            } else {
                palette.text
            },
        ),
    )
}

fn enter_field(
    lines: &mut Vec<Entry>,
    label: &str,
    value: &str,
    active: bool,
    down: i64,
    palette: Palette,
)
    requires
        0 <= down <= 1000,
        crate::paint::all_lines_wf(old(lines)@),
    ensures
        crate::paint::all_lines_wf(final(lines)@),
        crate::paint::entered(final(lines)@) == crate::paint::entered(old(lines)@).push(
            field_line(label@, value@, active, down as int, palette),
        ),
{
    let mut words = joined3(label, ": ", truncate_ui(value, 54).as_str());
    words.append(
        if active {
            "▏"
        } else {
            ""
        },
    );
    let color = if active {
        palette.accent
    } else {
        palette.text
    };
    enter(lines, words, 140, down, opaque(color));
}

/// The lines of the dialog of a sheet.
pub open spec fn sheet_lines(edit: SheetEdit, palette: Palette) -> Seq<crate::paint::Entered> {
    let none = Seq::<crate::paint::Entered>::empty();
    none.push(
        crate::paint::an_entry(
            "Hierarchical sheet at "@ + crate::geometry::place_text(edit.point),
            130,
            21,
            crate::paint::solid(palette.accent),
        ),
    ).push(
        field_line("Name"@, edit.name@, edit.field == SheetEditField::Name, 50, palette),
    ).push(
        field_line("Child file"@, edit.file@, edit.field == SheetEditField::File, 79, palette),
    ).push(
        crate::paint::an_entry(
            "Tab · switch field    Enter · create/link    Esc · cancel"@,
            100,
            116,
            crate::paint::solid(palette.text),
        ),
    )
}

/// Paints the dialog of a sheet.
pub fn draw_sheet_edit(canvas: &mut Canvas, width: Double, palette: Palette, edit: &SheetEdit)
    requires
        crate::screen::plain(width),
        written_out(edit.point),
    ensures
        final(canvas)@ == dialog_painted(
            old(canvas)@,
            dialog_area(width, 280, 82, 132),
            palette.accent,
            palette,
            sheet_lines(*edit, palette),
        ),
{
    let mut lines = no_lines();
    let title = joined("Hierarchical sheet at ", format_place(edit.point).as_str());
    enter(&mut lines, title, 130, 21, opaque(palette.accent));
    let naming = edit.field == SheetEditField::Name;
    enter_field(&mut lines, "Name", edit.name.as_str(), naming, 50, palette);
    let filing = edit.field == SheetEditField::File;
    enter_field(&mut lines, "Child file", edit.file.as_str(), filing, 79, palette);
    let help = "Tab · switch field    Enter · create/link    Esc · cancel".to_owned();
    enter(&mut lines, help, 100, 116, opaque(palette.text));
    draw_dialog(canvas, dialog_rect(width, 280, 82, 132), palette.accent, palette, &lines);
}

/// The lines of a dialog with one value.
pub open spec fn value_lines(
    title: Seq<char>,
    tenths: int,
    value: Seq<char>,
    help: Seq<char>,
    palette: Palette,
) -> Seq<crate::paint::Entered> {
    let none = Seq::<crate::paint::Entered>::empty();
    none.push(crate::paint::an_entry(title, tenths, 20, crate::paint::solid(palette.accent))).push(
        crate::paint::an_entry(
            crate::ui_text::truncated(value + "▏"@, 58),
            160,
            48,
            crate::paint::solid(palette.text),
        ),
    ).push(crate::paint::an_entry(help, 100, 68, crate::paint::solid(palette.text)))
}

fn list_value(title: String, tenths: i64, value: &str, help: &str, palette: Palette) -> (r: Vec<Entry>)
    requires
        0 <= tenths <= 1000,
    ensures
        crate::paint::entered(r@) == value_lines(title@, tenths as int, value@, help@, palette),
        crate::paint::all_lines_wf(r@),
{
    let mut lines = no_lines();
    enter(&mut lines, title, tenths, 20, opaque(palette.accent));
    let shown = truncate_ui(joined(value, "▏").as_str(), 58);
    enter(&mut lines, shown, 160, 48, opaque(palette.text));
    enter(&mut lines, help.to_owned(), 100, 68, opaque(palette.text));
    lines
}

/// Paints the dialog of a label.
pub fn draw_label_edit(canvas: &mut Canvas, width: Double, palette: Palette, edit: &LabelEdit)
    requires
        crate::screen::plain(width),
        written_out(edit.point),
    ensures
        final(canvas)@ == dialog_painted(
            old(canvas)@,
            dialog_area(width, 250, 90, 82),
            palette.accent,
            palette,
            value_lines(
                "Local label at "@ + crate::geometry::place_text(edit.point),
                120,
                edit.value@,
                "Enter · atomic place    Esc · cancel"@,
                palette,
            ),
        ),
{
    let title = joined("Local label at ", format_place(edit.point).as_str());
    let lines = list_value(
        title,
        120,
        edit.value.as_str(),
        "Enter · atomic place    Esc · cancel",
        palette,
    );
    draw_dialog(canvas, dialog_rect(width, 250, 90, 82), palette.accent, palette, &lines);
}

/// Paints the dialog of a property.
pub fn draw_property_edit(canvas: &mut Canvas, width: Double, palette: Palette, edit: &PropertyEdit)
    requires
        crate::screen::plain(width),
    ensures
        final(canvas)@ == dialog_painted(
            old(canvas)@,
            dialog_area(width, 250, 90, 82),
            palette.selection,
            palette,
            value_lines(
                "Edit "@ + edit.name@,
                130,
                edit.value@,
                "Enter · atomic save    Esc · cancel"@,
                palette,
            ),
        ),
{
    let lines = list_value(
        joined("Edit ", edit.name.as_str()),
        130,
        edit.value.as_str(),
        "Enter · atomic save    Esc · cancel",
        palette,
    );
    draw_dialog(canvas, dialog_rect(width, 250, 90, 82), palette.selection, palette, &lines);
}

/// What the search says of its hits.
pub open spec fn search_detail(search: SearchState) -> Seq<char> {
    if search.hits@.len() == 0 {
        crate::text::decimal(0) + " result(s) · Enter to navigate · Esc to close"@
    } else {
        crate::text::decimal(search.hits@.len()) + " result(s) · next: "@
            + search.hits@[search.next_hit()].description@ + " · Enter to navigate"@
    }
}

/// The lines of the search.
pub open spec fn search_lines(search: SearchState, palette: Palette) -> Seq<
    crate::paint::Entered,
> {
    let none = Seq::<crate::paint::Entered>::empty();
    none.push(
        crate::paint::an_entry(
            "Find: "@ + search.query@ + "▏"@,
            150,
            20,
            crate::paint::solid(palette.text),
        ),
    ).push(
        crate::paint::an_entry(search_detail(search), 110, 44, crate::paint::solid(palette.text)),
    )
}

fn tell_hits(search: &SearchState) -> (r: String)
    ensures
        r@ == search_detail(*search),
{
    let count = search.hits.len();
    let mut r = to_decimal(count as u128);
    if count == 0 {
        r.append(" result(s) · Enter to navigate · Esc to close");
    } else {
        let next = if search.current < count {
            search.current
        } else {
            count - 1
        };
        r.append(" result(s) · next: ");
        r.append(search.hits[next].description.as_str());
        r.append(" · Enter to navigate");
    }
    r
}

/// Paints the search.
pub fn draw_search(canvas: &mut Canvas, width: Double, palette: Palette, search: &SearchState)
    requires
        crate::screen::plain(width),
    ensures
        final(canvas)@ == dialog_painted(
            old(canvas)@,
            dialog_area(width, 260, 12, 60),
            palette.accent,
            palette,
            search_lines(*search, palette),
        ),
{
    let mut lines = no_lines();
    let query = joined3("Find: ", search.query.as_str(), "▏");
    enter(&mut lines, query, 150, 20, opaque(palette.text));
    enter(&mut lines, tell_hits(search), 110, 44, opaque(palette.text));
    draw_dialog(canvas, dialog_rect(width, 260, 12, 60), palette.accent, palette, &lines);
}

/// How many lines of what came from outside are shown.
pub open spec fn preview_count(count: int) -> int {
    if count <= 6 {
        count
    } else {
        6
    }
}

/// Where what came from outside is shown.
pub open spec fn preview_area(width: Double, count: int) -> ScreenRect {
    let x0 = crate::geometry::spec_greater(
        crate::paint::off(width, -560),
        crate::screen::px(SIDEBAR_WIDTH + 14),
    );
    ScreenRect {
        x0,
        y0: crate::screen::px(STATUS_HEIGHT + 8),
        x1: crate::geometry::spec_lesser(
            crate::paint::off(x0, 546),
            crate::paint::off(width, -14),
        ),
        y1: crate::screen::px(STATUS_HEIGHT + 8 + 58 + preview_count(count) * 31),
    }
}

/// The first `n` lines of what came from outside, below its heading.
pub open spec fn preview_lines(lines: Seq<Seq<char>>, palette: Palette, n: nat) -> Seq<
    crate::paint::Entered,
>
    decreases n,
{
    if n == 0 {
        let none = Seq::<crate::paint::Entered>::empty();
        none.push(
            crate::paint::an_entry(
                "External schematic update · loaded safely"@,
                150,
                23,
                crate::paint::solid(palette.accent),
            ),
        ).push(
            crate::paint::an_entry(
                "Item preconditions remain active · Esc dismisses"@,
                110,
                44,
                crate::paint::solid(palette.text),
            ),
        )
    } else {
        preview_lines(lines, palette, (n - 1) as nat).push(
            crate::paint::an_entry(
                crate::ui_text::truncated(lines[n - 1], 72),
                120,
                70 + (n - 1) * 31,
                crate::paint::solid(palette.text),
            ),
        )
    }
}

/// What came from outside, on its card.
pub open spec fn preview_painted(
    marks: Seq<crate::paint::Painted>,
    width: Double,
    palette: Palette,
    lines: Seq<Seq<char>>,
) -> Seq<crate::paint::Painted> {
    let area = preview_area(width, lines.len() as int);
    let entries = preview_lines(lines, palette, preview_count(lines.len() as int) as nat);
    crate::paint::listed(
        crate::paint::plated(
            marks,
            Outline::Rounded(area, crate::screen::px(7)),
            crate::paint::sheer(palette.card, 97),
            crate::paint::tenths(15),
            crate::paint::solid(palette.accent),
        ),
        crate::paint::off(area.x0, 14),
        area.y0,
        entries,
        entries.len(),
    )
}

/// Paints what came from outside.
pub fn draw_external_preview(
    canvas: &mut Canvas,
    width: Double,
    palette: Palette,
    shown: &Vec<String>,
)
    requires
        crate::screen::plain(width),
    ensures
        final(canvas)@ == preview_painted(
            old(canvas)@,
            width,
            palette,
            crate::text::views(shown@),
        ),
{
    let visible: usize = if shown.len() <= 6 {
        shown.len()
    } else {
        6
    };
    let mut lines = no_lines();
    let title = "External schematic update · loaded safely".to_owned();
    enter(&mut lines, title, 150, 23, opaque(palette.accent));
    let help = "Item preconditions remain active · Esc dismisses".to_owned();
    enter(&mut lines, help, 110, 44, opaque(palette.text));
    let mut i: usize = 0;
    while i < visible
        invariant
            i <= visible <= shown@.len(),
            visible <= 6,
            crate::paint::all_lines_wf(lines@),
            crate::paint::entered(lines@) == preview_lines(
                crate::text::views(shown@),
                palette,
                i as nat,
            ),
        decreases visible - i,
    {
        let words = truncate_ui(shown[i].as_str(), 72);
        enter(&mut lines, words, 120, 70 + (i as i64) * 31, opaque(palette.text));
        i = i + 1;
    }
    let x0 = greater(go(width, -560), pixels(SIDEBAR_WIDTH + 14));
    let area = ScreenRect {
        x0,
        y0: pixels(STATUS_HEIGHT + 8),
        x1: lesser(go(x0, 546), go(width, -14)),
        y1: pixels(STATUS_HEIGHT + 8 + 58 + (visible as i64) * 31),
    };
    canvas.plate(
        Outline::Rounded(area, pixels(7)),
        with_alpha(palette.card, 97),
        in_tenths(15),
        opaque(palette.accent),
    );
    canvas.list(go(area.x0, 14), area.y0, &lines);
}

/// The object whose properties are shown: the only one that is selected.
pub open spec fn inspected(selection: Selection, objects: Seq<SceneObject>) -> Option<int> {
    if selection.uuids@.len() == 1 {
        crate::selection::object_from(objects, selection.uuids@[0]@, 0)
    } else {
        None
    }
}

/// The object whose properties are shown: the only one that is selected.
pub fn find_inspected(selection: &Selection, objects: &Vec<SceneObject>) -> (r: Option<usize>)
    ensures
        match inspected(*selection, objects@) {
            Some(i) => r matches Some(k) && k == i && k < objects@.len(),
            None => r is None,
        },
{
    if selection.uuids.len() == 1 {
        find_object(objects, selection.uuids[0].as_str())
    } else {
        None
    }
}

/// Where the properties are shown.
pub open spec fn inspector_area(width: Double, height: Double) -> ScreenRect {
    let y0 = STATUS_HEIGHT + 8;
    ScreenRect {
        x0: crate::geometry::spec_greater(crate::paint::off(width, -310), crate::screen::px(0)),
        y0: crate::screen::px(y0),
        x1: crate::paint::off(width, -8),
        y1: crate::geometry::spec_greater(
            crate::paint::off(crate::paint::off(height, -FILMSTRIP_HEIGHT), -8),
            crate::screen::px(y0 + 80),
        ),
    }
}

fn inspector_rect(width: Double, height: Double) -> (r: ScreenRect)
    requires
        crate::screen::plain(width),
        crate::screen::plain(height),
    ensures
        r == inspector_area(width, height),
        r.wf(),
        r.within(0x2_0000),
{
    let y0: i64 = STATUS_HEIGHT + 8;
    ScreenRect {
        x0: greater(go(width, -310), pixels(0)),
        y0: pixels(y0),
        x1: go(width, -8),
        y1: greater(go(go(height, -FILMSTRIP_HEIGHT), -8), pixels(y0 + 80)),
    }
}

/// What is told of an object, the first `n` of its properties last. How far each line stands below
/// the top goes by the size of the lines above it.
pub open spec fn object_lines(object: SceneObject, palette: Palette, n: nat) -> Seq<
    crate::paint::Entered,
>
    decreases n,
{
    if n == 0 {
        let none = Seq::<crate::paint::Entered>::empty();
        none.push(
            crate::paint::an_entry("Properties"@, 150, 21, crate::paint::solid(palette.accent)),
        ).push(
            crate::paint::an_entry(
                crate::ui_text::truncated(
                    crate::selection::kind_text(object.kind) + " · "@ + object.label@,
                    42,
                ),
                120,
                43,
                crate::paint::solid(palette.text),
            ),
        ).push(
            crate::paint::an_entry(
                crate::ui_text::truncated("UUID · "@ + object.uuid@, 42),
                100,
                62,
                crate::paint::solid(palette.text),
            ),
        ).push(
            crate::paint::an_entry(
                "E · edit primary property"@,
                100,
                79,
                crate::paint::solid(palette.accent),
            ),
        )
    } else {
        let property = object.properties@[n - 1];
        object_lines(object, palette, (n - 1) as nat).push(
            crate::paint::an_entry(
                crate::ui_text::truncated(property.name@ + " · "@ + property.value@, 44),
                110,
                96 + (n - 1) * 18,
                crate::paint::solid(palette.text),
            ),
        )
    }
}

/// No object has more properties.
pub const MOST_PROPERTIES: usize = 0x100_0000;

fn list_object(object: &SceneObject, palette: Palette) -> (r: Vec<Entry>)
    requires
        object.properties@.len() <= MOST_PROPERTIES,
    ensures
        crate::paint::entered(r@) == object_lines(*object, palette, object.properties@.len()),
        crate::paint::all_lines_wf(r@),
{
    let mut lines = no_lines();
    enter(&mut lines, "Properties".to_owned(), 150, 21, opaque(palette.accent));
    let kind = joined3(kind_name(object.kind), " · ", object.label.as_str());
    enter(&mut lines, truncate_ui(kind.as_str(), 42), 120, 43, opaque(palette.text));
    let uuid = joined("UUID · ", object.uuid.as_str());
    enter(&mut lines, truncate_ui(uuid.as_str(), 42), 100, 62, opaque(palette.text));
    let help = "E · edit primary property".to_owned();
    enter(&mut lines, help, 100, 79, opaque(palette.accent));
    let mut i: usize = 0;
    while i < object.properties.len()
        invariant
            i <= object.properties@.len() <= MOST_PROPERTIES,
            crate::paint::all_lines_wf(lines@),
            crate::paint::entered(lines@) == object_lines(*object, palette, i as nat),
        decreases object.properties@.len() - i,
    {
        let property = &object.properties[i];
        let told = joined3(property.name.as_str(), " · ", property.value.as_str());
        let words = truncate_ui(told.as_str(), 44);
        enter(&mut lines, words, 110, 96 + (i as i64) * 18, opaque(palette.text));
        i = i + 1;
    }
    lines
}

/// The lines from `i` on, as far as they stand above `bottom`; where one does not, an ellipsis
/// stands for it and the rest.
pub open spec fn cut_short(
    marks: Seq<crate::paint::Painted>,
    x: Double,
    y: Double,
    bottom: Double,
    lines: Seq<crate::paint::Entered>,
    palette: Palette,
    i: nat,
) -> Seq<crate::paint::Painted>
    decreases lines.len() - i,
{
    if i >= lines.len() {
        marks
    } else {
        let e = lines[i as int];
        let at = crate::paint::off(y, e.down);
        if bottom.spec_less(at) {
            marks.push(
                crate::paint::line(
                    "…"@,
                    crate::screen::px(12),
                    x,
                    at,
                    crate::paint::solid(palette.text),
                ),
            )
        } else {
            cut_short(
                marks.push(
                    crate::paint::line(e.words, crate::paint::tenths(e.tenths), x, at, e.paint),
                ),
                x,
                y,
                bottom,
                lines,
                palette,
                i + 1,
            )
        }
    }
}

/// The properties of an object, on their card.
pub open spec fn inspector_painted(
    marks: Seq<crate::paint::Painted>,
    width: Double,
    height: Double,
    palette: Palette,
    object: SceneObject,
) -> Seq<crate::paint::Painted> {
    let area = inspector_area(width, height);
    cut_short(
        crate::paint::plated(
            marks,
            Outline::Rounded(area, crate::screen::px(7)),
            crate::paint::sheer(palette.card, 96),
            crate::screen::px(1),
            crate::paint::solid(palette.card_border),
        ),
        crate::paint::off(area.x0, 12),
        area.y0,
        crate::paint::off(area.y1, -14),
        object_lines(object, palette, object.properties@.len()),
        palette,
        0,
    )
}

/// Paints the properties of the object that is selected.
pub fn draw_inspector(
    canvas: &mut Canvas,
    width: Double,
    height: Double,
    palette: Palette,
    object: &SceneObject,
)
    requires
        crate::screen::plain(width),
        crate::screen::plain(height),
        object.properties@.len() <= MOST_PROPERTIES,
    ensures
        final(canvas)@ == inspector_painted(old(canvas)@, width, height, palette, *object),
{
    let area = inspector_rect(width, height);
    canvas.plate(
        Outline::Rounded(area, pixels(7)),
        with_alpha(palette.card, 96),
        pixels(1),
        opaque(palette.card_border),
    );
    let lines = list_object(object, palette);
    let x = go(area.x0, 12);
    let bottom = go(area.y1, -14);
    let ghost whole = inspector_painted(old(canvas)@, width, height, palette, *object);
    let mut i: usize = 0;
    while i < lines.len()
        invariant
            i <= lines@.len(),
            area.wf(),
            area.within(0x2_0000),
            bottom.wf(),
            crate::paint::all_lines_wf(lines@),
            cut_short(
                canvas@,
                x,
                area.y0,
                bottom,
                crate::paint::entered(lines@),
                palette,
                i as nat,
            ) == whole,
            whole == inspector_painted(old(canvas)@, width, height, palette, *object),
        decreases lines@.len() - i,
    {
        let e = &lines[i];
        let at = go(area.y0, e.down);
        if bottom.less(at) {
            canvas.write_line("…", pixels(12), x, at, opaque(palette.text));
            return;
        }
        canvas.write_line(e.words.as_str(), in_tenths(e.tenths), x, at, e.paint);
        i = i + 1;
    }
}

/// The first `n` of six dots by which the panel of warnings is moved, in three rows of two.
pub open spec fn grip(
    marks: Seq<crate::paint::Painted>,
    panel: ScreenRect,
    color: Color,
    n: nat,
) -> Seq<crate::paint::Painted>
    decreases n,
{
    if n == 0 {
        marks
    } else {
        let column = (n - 1) % 2;
        let row = (n - 1) / 2;
        grip(marks, panel, color, (n - 1) as nat).push(
            crate::paint::filled(
                Outline::Circle(
                    Point {
                        x: crate::paint::off(crate::paint::off(panel.x0, 13), 5 * column),
                        y: crate::paint::off(crate::paint::off(panel.y0, 14), 5 * row),
                    },
                    crate::paint::tenths(12),
                ),
                crate::paint::solid(color),
            ),
        )
    }
}

fn draw_grip(canvas: &mut Canvas, panel: ScreenRect, color: Color)
    requires
        panel.wf(),
        panel.within(0x8_0000),
    ensures
        final(canvas)@ == grip(old(canvas)@, panel, color, 6),
{
    let mut k: i64 = 0;
    while k < 6
        invariant
            0 <= k <= 6,
            panel.wf(),
            panel.within(0x8_0000),
            canvas@ == grip(old(canvas)@, panel, color, k as nat),
        decreases 6 - k,
    {
        let column: i64 = k % 2;
        let row: i64 = k / 2;
        let at = Point { x: go(go(panel.x0, 13), 5 * column), y: go(go(panel.y0, 14), 5 * row) };
        canvas.fill(Outline::Circle(at, in_tenths(12)), opaque(color));
        k = k + 1;
    }
}

/// The button that folds the panel: a bar, and a second one across it where the panel is folded.
pub open spec fn fold_painted(
    marks: Seq<crate::paint::Painted>,
    panel: ScreenRect,
    collapsed: bool,
    palette: Palette,
) -> Seq<crate::paint::Painted> {
    let area = crate::controls::fold_area(panel);
    let (x, y) = area.spec_center();
    let bar = crate::paint::plated(
        marks,
        Outline::Rounded(area, crate::screen::px(5)),
        crate::paint::sheer(palette.fill, 42),
        crate::screen::px(1),
        crate::paint::solid(palette.card_border),
    ).push(
        crate::paint::stroked(
            Outline::Line(
                Point { x: crate::paint::off(x, -5), y },
                Point { x: crate::paint::off(x, 5), y },
            ),
            crate::paint::tenths(18),
            crate::paint::solid(palette.text),
        ),
    );
    if collapsed {
        bar.push(
            crate::paint::stroked(
                Outline::Line(
                    Point { x, y: crate::paint::off(y, -5) },
                    Point { x, y: crate::paint::off(y, 5) },
                ),
                crate::paint::tenths(18),
                crate::paint::solid(palette.text),
            ),
        )
    } else {
        bar
    }
}

fn draw_fold(canvas: &mut Canvas, panel: ScreenRect, collapsed: bool, palette: Palette)
    requires
        panel.wf(),
        panel.within(0x8_0000),
    ensures
        final(canvas)@ == fold_painted(old(canvas)@, panel, collapsed, palette),
{
    let area = diagnostics_collapse_rect(panel);
    canvas.plate(
        Outline::Rounded(area, pixels(5)),
        with_alpha(palette.fill, 42),
        pixels(1),
        opaque(palette.card_border),
    );
    let (x, y) = area.center();
    let across = Outline::Line(Point { x: go(x, -5), y }, Point { x: go(x, 5), y });
    canvas.stroke(across, in_tenths(18), opaque(palette.text));
    if collapsed {
        let down = Outline::Line(Point { x, y: go(y, -5) }, Point { x, y: go(y, 5) });
        canvas.stroke(down, in_tenths(18), opaque(palette.text));
    }
}

/// The heading of the panel of warnings.
pub open spec fn warnings_title(count: nat, collapsed: bool) -> Seq<char> {
    if collapsed {
        crate::text::decimal(count) + " design warnings"@
    } else {
        "Design checks · "@ + crate::text::decimal(count) + " warning(s)"@
    }
}

/// The head of the panel of warnings.
pub open spec fn warnings_head(
    marks: Seq<crate::paint::Painted>,
    panel: ScreenRect,
    count: nat,
    collapsed: bool,
    palette: Palette,
) -> Seq<crate::paint::Painted> {
    fold_painted(
        grip(
            crate::paint::plated(
                marks,
                Outline::Rounded(panel, crate::screen::px(9)),
                crate::paint::sheer(palette.card, 96),
                crate::screen::px(1),
                crate::paint::solid(palette.selection),
            ),
            panel,
            palette.selection,
            6,
        ).push(
            crate::paint::line(
                warnings_title(count, collapsed),
                crate::screen::px(
                    if collapsed {
                        12
                    } else {
                        16
                    },
                ),
                crate::paint::off(panel.x0, 31),
                crate::paint::off(panel.y0, DIAGNOSTICS_HEADER_HEIGHT / 2),
                crate::paint::solid(palette.selection),
            ),
        ),
        panel,
        collapsed,
        palette,
    )
}

fn draw_warnings_head(
    canvas: &mut Canvas,
    panel: ScreenRect,
    count: usize,
    collapsed: bool,
    palette: Palette,
)
    requires
        panel.wf(),
        panel.within(0x8_0000),
    ensures
        final(canvas)@ == warnings_head(old(canvas)@, panel, count as nat, collapsed, palette),
{
    canvas.plate(
        Outline::Rounded(panel, pixels(9)),
        with_alpha(palette.card, 96),
        pixels(1),
        opaque(palette.selection),
    );
    draw_grip(canvas, panel, palette.selection);
    let number = to_decimal(count as u128);
    let title = if collapsed {
        joined(number.as_str(), " design warnings")
    } else {
        joined3("Design checks · ", number.as_str(), " warning(s)")
    };
    let size = pixels(
        if collapsed {
            12
        } else {
            16
        },
    );
    let x = go(panel.x0, 31);
    let y = go(panel.y0, DIAGNOSTICS_HEADER_HEIGHT / 2);
    canvas.write_line(title.as_str(), size, x, y, opaque(palette.selection));
    draw_fold(canvas, panel, collapsed, palette);
}

/// The first `n` warnings, one below the other.
pub open spec fn warnings_listed(
    marks: Seq<crate::paint::Painted>,
    panel: ScreenRect,
    step: Double,
    messages: Seq<ConnectivityDiagnostic>,
    palette: Palette,
    n: nat,
) -> Seq<crate::paint::Painted>
    decreases n,
{
    if n == 0 {
        marks
    } else {
        warnings_listed(marks, panel, step, messages, palette, (n - 1) as nat).push(
            crate::paint::line(
                crate::ui_text::truncated(messages[n - 1].message@, 72),
                crate::screen::px(13),
                crate::paint::off(panel.x0, 16),
                crate::paint::off(
                    crate::paint::off(panel.y0, DIAGNOSTICS_HEADER_HEIGHT as int),
                    19,
                ).spec_sum(crate::screen::px(n - 1).spec_product(step)),
                crate::paint::solid(palette.text),
            ),
        )
    }
}

/// The panel of warnings. Folded it has a head alone; else it lists the first four warnings and
/// says how many more there are. Without a warning there is no panel.
pub open spec fn warnings_painted(
    marks: Seq<crate::paint::Painted>,
    width: Double,
    height: Double,
    palette: Palette,
    settings: ViewerSettings,
    warnings: Seq<ConnectivityDiagnostic>,
) -> Seq<crate::paint::Painted> {
    let count = warnings.len();
    let panel = crate::controls::panel_area(width, height, settings, count as int);
    let head = warnings_head(marks, panel, count, settings.diagnostics_collapsed, palette);
    let visible = if count <= 4 {
        count
    } else {
        4
    };
    if count == 0 {
        marks
    } else if settings.diagnostics_collapsed {
        head
    } else {
        let all = warnings_listed(
            head,
            panel,
            crate::controls::line_height(settings),
            warnings,
            palette,
            visible,
        );
        if count > visible {
            all.push(
                crate::paint::line(
                    "+"@ + crate::text::decimal((count - visible) as nat) + " more checks"@,
                    crate::screen::px(11),
                    crate::paint::off(panel.x1, -152),
                    crate::paint::off(panel.y0, 24),
                    crate::paint::solid(palette.text),
                ),
            )
        } else {
            all
        }
    }
}

/// Paints the panel of warnings.
pub fn draw_diagnostics(
    canvas: &mut Canvas,
    width: Double,
    height: Double,
    palette: Palette,
    settings: &ViewerSettings,
    warnings: &Vec<ConnectivityDiagnostic>,
)
    requires
        crate::screen::plain(width),
        crate::screen::plain(height),
        settings.wf(),
    ensures
        final(canvas)@ == warnings_painted(
            old(canvas)@,
            width,
            height,
            palette,
            *settings,
            warnings@,
        ),
{
    let count = warnings.len();
    if count == 0 {
        return;
    }
    let panel = diagnostics_panel_rect(width, height, settings, count);
    draw_warnings_head(canvas, panel, count, settings.diagnostics_collapsed, palette);
    if settings.diagnostics_collapsed {
        return;
    }
    let visible: usize = if count <= 4 {
        count
    } else {
        4
    };
    let step = find_line_height(settings);
    let x = go(panel.x0, 16);
    let y = go(go(panel.y0, DIAGNOSTICS_HEADER_HEIGHT), 19);
    let ghost head = canvas@;
    let mut i: usize = 0;
    while i < visible
        invariant
            i <= visible <= warnings@.len(),
            visible <= 4,
            step.wf(),
            step.within(0x1_1000),
            x == crate::paint::off(panel.x0, 16),
            y == crate::paint::off(
                crate::paint::off(panel.y0, DIAGNOSTICS_HEADER_HEIGHT as int),
                19,
            ),
            y.wf(),
            y.within(0x9_0000),
            canvas@ == warnings_listed(head, panel, step, warnings@, palette, i as nat),
        decreases visible - i,
    {
        let words = truncate_ui(warnings[i].message.as_str(), 72);
        let at = y.plus(pixels(i as i64).times(step));
        canvas.write_line(words.as_str(), pixels(13), x, at, opaque(palette.text));
        i = i + 1;
    }
    if count > visible {
        let more = joined3("+", to_decimal((count - visible) as u128).as_str(), " more checks");
        let right = go(panel.x1, -152);
        let top = go(panel.y0, 24);
        canvas.write_line(more.as_str(), pixels(11), right, top, opaque(palette.text));
    }
}

} // verus!
