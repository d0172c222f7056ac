//! The pointer: what a press, a move, a release and a turn of the wheel mean.

use crate::change_timeline::ChangeTimeline;
use crate::controls::{
    card_at, change_at, control_at, diagnostics_collapse_rect, diagnostics_panel_rect,
    find_line_height, find_part, timeline_event_rects, tool_at_point, EditControl, ToolbarAction,
    MOST_SHEETS,
};
use crate::double::Double;
use crate::geometry::{greater, Point};
use crate::screen::{
    filmstrip_rect, main_rect, pixels, ScreenRect, DIAGNOSTICS_HEADER_HEIGHT, FILMSTRIP_HEIGHT,
    SIDEBAR_WIDTH, STATUS_HEIGHT, TIMELINE_HEIGHT,
};
use crate::text::joined;
use crate::viewer_settings::{clamp, ViewerSettings};
use vstd::prelude::*;

verus! {

/// What a press does on the panel of warnings.
#[derive(Clone, Copy, PartialEq, Eq, Structural, Debug)]
pub enum PanelHit {
    /// The panel is not there.
    Outside,
    /// The panel is folded or unfolded.
    Fold,
    /// The panel is taken hold of, so far from its left and its top.
    Grab(Double, Double),
    /// The warning of the given number is shown.
    Warning(usize),
    /// Nothing, but nothing under the panel is pressed either.
    Inside,
}

/// The line of the panel that a point lies on.
pub open spec fn line_of(panel: ScreenRect, settings: ViewerSettings, y: Double) -> int {
    let top = panel.y0.spec_sum(crate::screen::px(DIAGNOSTICS_HEADER_HEIGHT as int));
    let row = y.spec_difference(top).spec_quotient(
        crate::controls::line_height(settings),
    ).spec_floor().spec_to_i64();
    if row < 0 {
        0
    } else {
        row
    }
}

/// What is said when the panel of warnings is taken hold of.
pub fn panel_grabbed_status() -> (r: String)
    ensures
        r@ == "Moving design checks · drag anywhere by the header"@,
{
    "Moving design checks · drag anywhere by the header".to_owned()
}

/// What is said when the panel of warnings is let go of and its place is kept.
pub fn panel_moved_status() -> (r: String)
    ensures
        r@ == "Design checks · panel position saved"@,
{
    "Design checks · panel position saved".to_owned()
}

/// What is said of a warning that is shown.
pub fn warning_status(message: &str) -> (r: String)
    ensures
        r@ == "Design check · "@ + message@,
{
    joined("Design check · ", message)
}

/// Folds or unfolds the panel of warnings, and says which.
pub fn fold_diagnostics(settings: &mut ViewerSettings) -> (r: String)
    ensures
        *final(settings) == (ViewerSettings {
            diagnostics_collapsed: !old(settings).diagnostics_collapsed,
            ..*old(settings)
        }),
        r@ == (if final(settings).diagnostics_collapsed {
            "Design checks · collapsed"@
        } else {
            "Design checks · expanded"@
        }),
{
    settings.diagnostics_collapsed = !settings.diagnostics_collapsed;
    if settings.diagnostics_collapsed {
        "Design checks · collapsed".to_owned()
    } else {
        "Design checks · expanded".to_owned()
    }
}

/// What a press does on the panel of warnings.
pub open spec fn panel_hit(
    width: Double,
    height: Double,
    settings: ViewerSettings,
    count: int,
    x: Double,
    y: Double,
) -> PanelHit {
    let panel = crate::controls::panel_area(width, height, settings, count);
    if count == 0 || !panel.holds(x, y) {
        PanelHit::Outside
    } else if crate::controls::fold_area(panel).holds(x, y) {
        PanelHit::Fold
    } else if !panel.y0.spec_sum(
        crate::screen::px(DIAGNOSTICS_HEADER_HEIGHT as int),
    ).spec_less(y) {
        PanelHit::Grab(x.spec_difference(panel.x0), y.spec_difference(panel.y0))
    } else if settings.diagnostics_collapsed {
        PanelHit::Inside
    } else if line_of(panel, settings, y) < count {
        PanelHit::Warning(line_of(panel, settings, y) as usize)
    } else {
        PanelHit::Inside
    }
}

fn find_line(panel: ScreenRect, settings: &ViewerSettings, y: Double) -> (r: i64)
    requires
        panel.wf(),
        panel.within(0x8_0000),
        settings.wf(),
        settings.ui_scale.mantissa != 0,
        crate::screen::plain(y),
    ensures
        r == line_of(panel, *settings, y),
        r >= 0,
{
    let top = panel.y0.plus(pixels(DIAGNOSTICS_HEADER_HEIGHT));
    let row: i64 = y.minus(top).divided_by(find_line_height(settings)).floored().to_i64();
    if row < 0 {
        0
    } else {
        row
    }
}

/// What a press does on the panel of warnings: its button folds it, its head moves it, and a
/// warning shows the place that it speaks of.
pub fn handle_diagnostics(
    width: Double,
    height: Double,
    settings: &ViewerSettings,
    count: usize,
    x: Double,
    y: Double,
) -> (r: PanelHit)
    requires
        crate::screen::plain(width),
        crate::screen::plain(height),
        settings.wf(),
        settings.ui_scale.mantissa != 0,
        crate::screen::plain(x),
        crate::screen::plain(y),
    ensures
        r == panel_hit(width, height, *settings, count as int, x, y),
{
    if count == 0 {
        return PanelHit::Outside;
    }
    let panel = diagnostics_panel_rect(width, height, settings, count);
    if !panel.contains(x, y) {
        return PanelHit::Outside;
    }
    if diagnostics_collapse_rect(panel).contains(x, y) {
        return PanelHit::Fold;
    }
    if y.at_most(panel.y0.plus(pixels(DIAGNOSTICS_HEADER_HEIGHT))) {
        return PanelHit::Grab(x.minus(panel.x0), y.minus(panel.y0));
    }
    if settings.diagnostics_collapsed {
        return PanelHit::Inside;
    }
    let row: i64 = find_line(panel, settings, y);
    if (row as u64) < count as u64 {
        PanelHit::Warning(row as usize)
    } else {
        PanelHit::Inside
    }
}

/// The settings with the panel of warnings moved to where the pointer holds it.
pub open spec fn panel_moved(
    width: Double,
    height: Double,
    settings: ViewerSettings,
    count: int,
    at: Point,
    hold: Point,
) -> ViewerSettings {
    let panel = crate::controls::panel_area(width, height, settings, count);
    let x_min = crate::screen::px(SIDEBAR_WIDTH + 14);
    let y_min = crate::screen::px(STATUS_HEIGHT + 8);
    let x_max = crate::geometry::spec_greater(
        width.spec_difference(crate::screen::px(14)).spec_difference(panel.spec_width()),
        x_min,
    );
    let y_max = crate::geometry::spec_greater(
        crate::controls::room_end(width, height).1.spec_difference(panel.spec_height()),
        y_min,
    );
    let fx = crate::controls::part_of_way(
        crate::viewer_settings::clamped(at.x.spec_difference(hold.x), x_min, x_max),
        x_min,
        x_max,
    );
    let fy = crate::controls::part_of_way(
        crate::viewer_settings::clamped(at.y.spec_difference(hold.y), y_min, y_max),
        y_min,
        y_max,
    );
    if settings.diagnostics_collapsed {
        ViewerSettings {
            diagnostics_collapsed_x: Some(fx),
            diagnostics_collapsed_y: Some(fy),
            ..settings
        }
    } else {
        ViewerSettings { diagnostics_panel_x: Some(fx), diagnostics_panel_y: Some(fy), ..settings }
    }
}

fn move_along(at: Double, hold: Double, low: Double, high: Double) -> (r: Double)
    requires
        crate::screen::plain(at),
        crate::screen::fair(hold),
        low.wf() && low.within(0x10_0000),
        high.wf() && high.within(0x10_0000),
        hold.within(0x10_0000),
    ensures
        r == crate::controls::part_of_way(
            crate::viewer_settings::clamped(at.spec_difference(hold), low, high),
            low,
            high,
        ),
        r.wf(),
{
    find_part(clamp(at.minus(hold), low, high), low, high)
}

/// Moves the panel of warnings to where the pointer holds it, as far as there is room. A panel
/// that is folded keeps a place of its own.
pub fn move_diagnostics_panel(
    width: Double,
    height: Double,
    settings: &ViewerSettings,
    count: usize,
    at: Point,
    hold: Point,
) -> (r: ViewerSettings)
    requires
        crate::screen::plain(width),
        crate::screen::plain(height),
        settings.wf(),
        crate::screen::plain(at.x),
        crate::screen::plain(at.y),
        hold.x.wf() && hold.x.within(0x10_0000),
        hold.y.wf() && hold.y.within(0x10_0000),
    ensures
        r == panel_moved(width, height, *settings, count as int, at, hold),
{
    let panel = diagnostics_panel_rect(width, height, settings, count);
    let x_min = pixels(SIDEBAR_WIDTH + 14);
    let y_min = pixels(STATUS_HEIGHT + 8);
    let x_max = greater(width.minus(pixels(14)).minus(panel.width()), x_min);
    let bottom = greater(
        height.minus(pixels(FILMSTRIP_HEIGHT)).minus(pixels(8)),
        pixels(STATUS_HEIGHT + 8 + DIAGNOSTICS_HEADER_HEIGHT),
    );
    let y_max = greater(bottom.minus(panel.height()), y_min);
    let fx = move_along(at.x, hold.x, x_min, x_max);
    let fy = move_along(at.y, hold.y, y_min, y_max);
    if settings.diagnostics_collapsed {
        ViewerSettings {
            diagnostics_collapsed_x: Some(fx),
            diagnostics_collapsed_y: Some(fy),
            ..*settings
        }
    } else {
        ViewerSettings { diagnostics_panel_x: Some(fx), diagnostics_panel_y: Some(fy), ..*settings }
    }
}

/// What decides what a press means.
#[derive(Clone, Copy, PartialEq, Eq, Structural, Debug)]
pub struct PointerState {
    pub width: Double,
    pub height: Double,
    pub x: Double,
    pub y: Double,
    pub settings: ViewerSettings,
    /// How many warnings the sheet has.
    pub warnings: usize,
    pub text_select_mode: bool,
    pub wire_draft: bool,
    /// How many sheets there are.
    pub sheets: usize,
    pub film_scroll: Double,
    pub timeline_scroll: usize,
}

impl PointerState {
    pub open spec fn wf(self) -> bool {
        &&& crate::screen::plain(self.width)
        &&& crate::screen::plain(self.height)
        &&& crate::screen::plain(self.x)
        &&& crate::screen::plain(self.y)
        &&& self.settings.wf()
        &&& self.settings.ui_scale.mantissa != 0
        &&& self.sheets <= MOST_SHEETS
        &&& crate::screen::plain(self.film_scroll)
    }
}

/// What a press of the first button means.
#[derive(Clone, Copy, PartialEq, Eq, Structural, Debug)]
pub enum Press {
    Control(EditControl),
    Tool(ToolbarAction),
    Panel(PanelHit),
    /// Text is selected.
    Text,
    /// The wire that is drawn ends here.
    Wire,
    /// A change of the timeline, or a place between them.
    Timeline(Option<u64>),
    /// A sheet's card, or a place between them.
    Film(Option<usize>),
    /// The page.
    Page,
    Nothing,
}

/// What a press on the page begins.
#[derive(Clone, Copy, PartialEq, Eq, Structural, Debug)]
pub enum PagePress {
    /// What is selected is dragged.
    Drag,
    /// The page is dragged.
    Pan,
    /// A box is drawn round what is to be selected.
    Box,
    Nothing,
}

/// What a press on the page begins: `hit` says that it met an item, which is then selected, and
/// `additive` that it adds to what is selected.
pub fn press_page(hit: bool, additive: bool, editing: bool, movable: bool, alt: bool) -> (r:
    PagePress)
    ensures
        r == (if hit {
            if editing && !additive && movable {
                PagePress::Drag
            } else {
                PagePress::Nothing
            }
        } else if alt {
            PagePress::Pan
        } else {
            PagePress::Box
        }),
{
    if hit {
        if editing && !additive && movable {
            PagePress::Drag
        } else {
            PagePress::Nothing
        }
    } else if alt {
        PagePress::Pan
    } else {
        PagePress::Box
    }
}

/// What a press of the first button means.
pub open spec fn press_meaning(
    s: PointerState,
    events: Seq<crate::change_timeline::ChangeEvent>,
) -> Press {
    let panel = panel_hit(s.width, s.height, s.settings, s.warnings as int, s.x, s.y);
    match crate::controls::control_met(s.width, s.x, s.y) {
        Some(control) => Press::Control(control),
        None => match crate::controls::tool_met(s.x, s.y, 0) {
            Some(tool) => Press::Tool(tool),
            None => if panel != PanelHit::Outside {
                Press::Panel(panel)
            } else if s.text_select_mode {
                Press::Text
            } else if s.wire_draft {
                Press::Wire
            } else if crate::screen::film_area(s.width, s.height).holds(s.x, s.y) {
                if !s.y.spec_less(
                    s.height.spec_difference(crate::screen::px(TIMELINE_HEIGHT as int)),
                ) {
                    Press::Timeline(
                        crate::controls::change_met(
                            crate::controls::changes_placed(
                                events,
                                s.timeline_scroll as int,
                                s.width,
                                s.height,
                            ),
                            s.x,
                            s.y,
                            0,
                        ),
                    )
                } else {
                    Press::Film(
                        crate::controls::card_met(
                            s.sheets as nat,
                            s.height,
                            s.film_scroll,
                            s.x,
                            s.y,
                            0,
                        ),
                    )
                }
            } else if crate::screen::main_area(s.width, s.height).holds(s.x, s.y) {
                Press::Page
            } else {
                Press::Nothing
            },
        },
    }
}

fn press_below(state: &PointerState, timeline: &ChangeTimeline) -> (r: Press)
    requires
        state.wf(),
        timeline@.len() <= MOST_SHEETS,
        !state.text_select_mode,
        !state.wire_draft,
        crate::controls::control_met(state.width, state.x, state.y) is None,
        crate::controls::tool_met(state.x, state.y, 0) is None,
        panel_hit(
            state.width,
            state.height,
            state.settings,
            state.warnings as int,
            state.x,
            state.y,
        ) == PanelHit::Outside,
    ensures
        r == press_meaning(*state, timeline@),
{
    if filmstrip_rect(state.width, state.height).contains(state.x, state.y) {
        if state.height.minus(pixels(TIMELINE_HEIGHT)).at_most(state.y) {
            let shown = timeline_event_rects(
                timeline,
                state.timeline_scroll,
                state.width,
                state.height,
            );
            Press::Timeline(change_at(&shown, state.x, state.y))
        } else {
            Press::Film(
                card_at(state.sheets, state.height, state.film_scroll, state.x, state.y),
            )
        }
    } else if main_rect(state.width, state.height).contains(state.x, state.y) {
        Press::Page
    } else {
        Press::Nothing
    }
}

/// What a press of the first button means: the controls come first, then the tools, the panel
/// of warnings, the selection of text, the wire that is drawn, the strip of sheets and the page.
pub fn dispatch_press(state: &PointerState, timeline: &ChangeTimeline) -> (r: Press)
    requires
        state.wf(),
        timeline@.len() <= MOST_SHEETS,
    ensures
        r == press_meaning(*state, timeline@),
{
    if let Some(control) = control_at(state.width, state.x, state.y) {
        return Press::Control(control);
    }
    if let Some(tool) = tool_at_point(state.x, state.y) {
        return Press::Tool(tool);
    }
    let panel = handle_diagnostics(
        state.width,
        state.height,
        &state.settings,
        state.warnings,
        state.x,
        state.y,
    );
    if panel != PanelHit::Outside {
        return Press::Panel(panel);
    }
    if state.text_select_mode {
        return Press::Text;
    }
    if state.wire_draft {
        return Press::Wire;
    }
    press_below(state, timeline)
}

/// What is going on with the pointer.
#[derive(Clone, Copy, PartialEq, Eq, Structural, Debug)]
pub struct Dragging {
    pub panel: bool,
    pub text: bool,
    pub wire: bool,
    pub items: bool,
    pub selection_box: bool,
    pub page: bool,
}

/// What a move or a release of the pointer goes on with.
#[derive(Clone, Copy, PartialEq, Eq, Structural, Debug)]
pub enum Drag {
    Panel,
    Text,
    Wire,
    Items,
    SelectionBox,
    Page,
    Nothing,
}

/// What a move of the pointer goes on with.
pub fn dispatch_move(d: Dragging) -> (r: Drag)
    ensures
        r == (if d.panel {
            Drag::Panel
        } else if d.text {
            Drag::Text
        } else if d.wire {
            Drag::Wire
        } else if d.items {
            Drag::Items
        } else if d.selection_box {
            Drag::SelectionBox
        } else if d.page {
            Drag::Page
        } else {
            Drag::Nothing
        }),
{
    if d.panel {
        Drag::Panel
    } else if d.text {
        Drag::Text
    } else if d.wire {
        Drag::Wire
    } else if d.items {
        Drag::Items
    } else if d.selection_box {
        Drag::SelectionBox
    } else if d.page {
        Drag::Page
    } else {
        Drag::Nothing
    }
}

/// What a release of the first button ends; a wire goes on until it is pressed again.
pub fn dispatch_release(d: Dragging) -> (r: Drag)
    ensures
        r == (if d.panel {
            Drag::Panel
        } else if d.text {
            Drag::Text
        } else if d.items {
            Drag::Items
        } else if d.selection_box {
            Drag::SelectionBox
        } else {
            Drag::Nothing
        }),
{
    if d.panel {
        Drag::Panel
    } else if d.text {
        Drag::Text
    } else if d.items {
        Drag::Items
    } else if d.selection_box {
        Drag::SelectionBox
    } else {
        Drag::Nothing
    }
}

/// How far the wheel was turned: in lines, or in pixels.
#[derive(Clone, Copy, PartialEq, Eq, Structural, Debug)]
pub enum Turn {
    Lines(Double, Double),
    Pixels(Double, Double),
}

/// The turn in the direction in which it was larger.
pub open spec fn larger_turn(x: Double, y: Double) -> Double {
    if y.spec_abs().spec_less(x.spec_abs()) {
        x
    } else {
        y
    }
}

/// How much a turn of the wheel moves, in pixels; only the strip of sheets minds a sideways
/// turn by lines.
pub open spec fn turn_amount(turn: Turn, over_film: bool) -> Double {
    match turn {
        Turn::Lines(x, y) => if over_film {
            larger_turn(x, y).spec_product(crate::screen::px(40))
        } else {
            y.spec_product(crate::screen::px(40))
        },
        Turn::Pixels(x, y) => larger_turn(x, y),
    }
}

/// What a turn of the wheel moves, and how much.
#[derive(Clone, Copy, PartialEq, Eq, Structural, Debug)]
pub enum Wheel {
    Timeline(Double),
    Film(Double),
    Zoom(Double),
}

/// What a turn of the wheel moves, and how much.
pub open spec fn wheel_meaning(width: Double, height: Double, x: Double, y: Double, turn: Turn) -> Wheel {
    let over_film = crate::screen::film_area(width, height).holds(x, y);
    let amount = turn_amount(turn, over_film);
    if over_film && !y.spec_less(height.spec_difference(crate::screen::px(TIMELINE_HEIGHT as int))) {
        Wheel::Timeline(amount)
    } else if over_film {
        Wheel::Film(amount)
    } else {
        Wheel::Zoom(amount)
    }
}

/// What a turn of the wheel moves, and how much.
pub fn dispatch_wheel(width: Double, height: Double, x: Double, y: Double, turn: Turn) -> (r: Wheel)
    requires
        crate::screen::plain(width),
        crate::screen::plain(height),
        crate::screen::plain(x),
        crate::screen::plain(y),
        match turn {
            Turn::Lines(a, b) => crate::screen::plain(a) && crate::screen::plain(b),
            Turn::Pixels(a, b) => crate::screen::plain(a) && crate::screen::plain(b),
        },
    ensures
        r == wheel_meaning(width, height, x, y, turn),
{
    let over_film = filmstrip_rect(width, height).contains(x, y);
    let amount = match turn {
        Turn::Lines(a, b) => {
            let lines = if over_film && b.abs().less(a.abs()) {
                a
            } else {
                b
            };
            lines.times(pixels(40))
        },
        Turn::Pixels(a, b) => if b.abs().less(a.abs()) {
            a
        } else {
            b
        },
    };
    if over_film && height.minus(pixels(TIMELINE_HEIGHT)).at_most(y) {
        Wheel::Timeline(amount)
    } else if over_film {
        Wheel::Film(amount)
    } else {
        Wheel::Zoom(amount)
    }
}

} // verus!
