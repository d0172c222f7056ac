//! The bar of tools, the line of status and the controls of the edit session: what they say, what
//! they do and how they are painted.

use crate::controls::{
    control_at, control_rect, tool_at_point, tool_rect, toolbar_buttons, toolbar_icon, EditControl,
    ToolbarAction, TOOLS,
};
use crate::double::{ratio, Double};
use crate::geometry::{format_fixed3, greater, lesser, Point};
use crate::icons::UiIcon;
use crate::native_font::{NativeFont, ShapedText};
use crate::paint::{go, in_tenths, opaque, with_alpha, Canvas, Outline, Paint};
use crate::readers::TextAlign;
use crate::screen::{pixels, ScreenRect, SIDEBAR_WIDTH, STATUS_HEIGHT};
use crate::text::{chars_of, joined, joined3, to_decimal};
use crate::theme::{Color, Palette, Theme};
use crate::ui_text::truncate_ui;
use crate::viewer_settings::ViewerSettings;
use vstd::prelude::*;

verus! {

/// The state of the tools.
#[derive(Clone, Copy, PartialEq, Eq, Structural, Debug)]
pub struct ToolState {
    pub grid_mm: Double,
    pub snap_enabled: bool,
    pub text_select_mode: bool,
    pub settings: ViewerSettings,
}

impl ToolState {
    pub open spec fn wf(self) -> bool {
        &&& self.settings.wf()
        &&& self.settings.ui_scale.within(1000)
        &&& self.settings.ui_scale.exponent <= -40
        &&& self.grid_mm.wf()
        &&& self.grid_mm.within(1000)
        &&& self.grid_mm.exponent <= 60
    }
}

pub open spec fn on_off(on: bool) -> Seq<char> {
    if on {
        "on"@
    } else {
        "off"@
    }
}

fn say_on_off(on: bool) -> (r: &'static str)
    ensures
        r@ == on_off(on),
{
    if on {
        "on"
    } else {
        "off"
    }
}

/// A scale in percent, without decimals.
pub open spec fn percent(scale: Double) -> Seq<char> {
    let hundredfold = scale.spec_product(crate::screen::px(100)).spec_single();
    let whole = crate::double::parts_of_one(
        hundredfold.mantissa as nat,
        hundredfold.exponent as int,
        1,
    );
    (if hundredfold.negative {
        seq!['-']
    } else {
        Seq::empty()
    }) + crate::text::decimal(whole) + seq!['%']
}

/// A scale in percent, without decimals.
pub fn to_percent(scale: Double) -> (r: String)
    requires
        scale.wf(),
        scale.within(1000),
        scale.exponent <= -40,
    ensures
        r@ == percent(scale),
{
    let hundred = pixels(100);
    let product = scale.times(hundred);
    let hundredfold = product.single();
    let mut r = String::new();
    if hundredfold.negative {
        r.push('-');
        assert(r@ =~= seq!['-']);
    } else {
        assert(r@ =~= Seq::empty());
    }
    r.append(to_decimal(hundredfold.to_parts_of_one(1)).as_str());
    r.push('%');
    proof {
        let sign = if hundredfold.negative {
            seq!['-']
        } else {
            Seq::empty()
        };
        let whole = crate::double::parts_of_one(
            hundredfold.mantissa as nat,
            hundredfold.exponent as int,
            1,
        );
        assert((sign + crate::text::decimal(whole)).push('%') =~= sign + crate::text::decimal(whole)
            + seq!['%']);
    }
    r
}

/// What is said of a theme.
pub open spec fn theme_text(dark: bool) -> Seq<char> {
    if dark {
        "high-contrast dark"@
    } else {
        "KiCad light"@
    }
}

fn say_theme(dark: bool) -> (r: &'static str)
    ensures
        r@ == theme_text(dark),
{
    if dark {
        "high-contrast dark"
    } else {
        "KiCad light"
    }
}

/// What is said of a tool while the pointer is on it.
pub open spec fn label_of(action: ToolbarAction, state: ToolState) -> Seq<char> {
    match action {
        ToolbarAction::Undo => "Undo · Ctrl/Command Z"@,
        ToolbarAction::Redo => "Redo · Ctrl/Command Shift Z"@,
        ToolbarAction::ZoomIn => "Zoom in"@,
        ToolbarAction::ZoomOut => "Zoom out"@,
        ToolbarAction::Fit => "Fit active sheet · 0"@,
        ToolbarAction::Grid => "Grid · "@ + crate::geometry::fixed3_text(state.grid_mm)
            + " mm · G"@,
        ToolbarAction::Snap => "Snap · "@ + on_off(state.snap_enabled) + " · S"@,
        ToolbarAction::UiScale => "Interface scale · "@ + percent(state.settings.ui_scale),
        ToolbarAction::HighlightChanges => "Highlight changes · "@ + on_off(
            state.settings.highlight_changes,
        ),
        ToolbarAction::FollowChanges => "Follow external changes · "@ + on_off(
            state.settings.follow_changes,
        ),
        ToolbarAction::TextSelect => "Select text · "@ + on_off(state.text_select_mode)
            + " · Ctrl/Command C to copy"@,
        ToolbarAction::Theme => "Theme · "@ + theme_text(state.settings.dark_theme),
    }
}

/// What is said of a tool while the pointer is on it.
pub fn toolbar_label(action: ToolbarAction, state: &ToolState) -> (r: String)
    requires
        state.wf(),
    ensures
        r@ == label_of(action, *state),
{
    match action {
        ToolbarAction::Undo => "Undo · Ctrl/Command Z".to_owned(),
        ToolbarAction::Redo => "Redo · Ctrl/Command Shift Z".to_owned(),
        ToolbarAction::ZoomIn => "Zoom in".to_owned(),
        ToolbarAction::ZoomOut => "Zoom out".to_owned(),
        ToolbarAction::Fit => "Fit active sheet · 0".to_owned(),
        ToolbarAction::Grid => joined3(
            "Grid · ",
            format_fixed3(state.grid_mm).as_str(),
            " mm · G",
        ),
        ToolbarAction::Snap => joined3("Snap · ", say_on_off(state.snap_enabled), " · S"),
        ToolbarAction::UiScale => joined(
            "Interface scale · ",
            to_percent(state.settings.ui_scale).as_str(),
        ),
        ToolbarAction::HighlightChanges => joined(
            "Highlight changes · ",
            say_on_off(state.settings.highlight_changes),
        ),
        ToolbarAction::FollowChanges => joined(
            "Follow external changes · ",
            say_on_off(state.settings.follow_changes),
        ),
        ToolbarAction::TextSelect => joined3(
            "Select text · ",
            say_on_off(state.text_select_mode),
            " · Ctrl/Command C to copy",
        ),
        ToolbarAction::Theme => joined("Theme · ", say_theme(state.settings.dark_theme)),
    }
}

/// The tool stands for something that is on.
pub open spec fn is_active(action: ToolbarAction, state: ToolState) -> bool {
    match action {
        ToolbarAction::Snap => state.snap_enabled,
        ToolbarAction::HighlightChanges => state.settings.highlight_changes,
        ToolbarAction::FollowChanges => state.settings.follow_changes,
        ToolbarAction::TextSelect => state.text_select_mode,
        ToolbarAction::Theme => state.settings.dark_theme,
        _ => false,
    }
}

/// The tool stands for something that is on.
pub fn toolbar_action_is_active(action: ToolbarAction, state: &ToolState) -> (r: bool)
    ensures
        r == is_active(action, *state),
{
    match action {
        ToolbarAction::Snap => state.snap_enabled,
        ToolbarAction::HighlightChanges => state.settings.highlight_changes,
        ToolbarAction::FollowChanges => state.settings.follow_changes,
        ToolbarAction::TextSelect => state.text_select_mode,
        ToolbarAction::Theme => state.settings.dark_theme,
        _ => false,
    }
}

/// The steps of the grid: 0.254, 0.508, 1.27, 2.54 and 5.08 millimetres.
pub open spec fn grid_step(i: int) -> Double {
    if i == 0 {
        Double { negative: false, mantissa: 0x10_4189_374b_c6a8, exponent: (-54) as i64 }
    } else if i == 1 {
        Double { negative: false, mantissa: 0x10_4189_374b_c6a8, exponent: (-53) as i64 }
    } else if i == 2 {
        Double { negative: false, mantissa: 0x14_51eb_851e_b852, exponent: (-52) as i64 }
    } else if i == 3 {
        Double { negative: false, mantissa: 0x14_51eb_851e_b852, exponent: (-51) as i64 }
    } else {
        Double { negative: false, mantissa: 0x14_51eb_851e_b852, exponent: (-50) as i64 }
    }
}

fn find_grid_step(i: usize) -> (r: Double)
    requires
        i < 5,
    ensures
        r == grid_step(i as int),
        r.wf(),
        r.within(60),
{
    match i {
        0 => Double { negative: false, mantissa: 0x10_4189_374b_c6a8, exponent: -54 },
        1 => Double { negative: false, mantissa: 0x10_4189_374b_c6a8, exponent: -53 },
        2 => Double { negative: false, mantissa: 0x14_51eb_851e_b852, exponent: -52 },
        3 => Double { negative: false, mantissa: 0x14_51eb_851e_b852, exponent: -51 },
        _ => Double { negative: false, mantissa: 0x14_51eb_851e_b852, exponent: -50 },
    }
}

/// The grid is as good as a step of it.
pub open spec fn is_grid_step(grid: Double, i: int) -> bool {
    grid_step(i).spec_difference(grid).spec_abs().spec_less(
        crate::double::spec_ratio(1, 1_000_000_000),
    )
}

/// The step that the grid is at, from the `i`-th on; the third for a grid that is at none.
pub open spec fn grid_place(grid: Double, i: nat) -> int
    decreases 5 - i,
{
    if i >= 5 {
        2
    } else if is_grid_step(grid, i as int) {
        i as int
    } else {
        grid_place(grid, i + 1)
    }
}

/// The step after that of the grid, the first after the last.
pub open spec fn next_grid(grid: Double) -> Double {
    grid_step((grid_place(grid, 0) + 1) % 5)
}

/// What is said of a grid.
pub open spec fn grid_text(grid: Double) -> Seq<char> {
    "Grid · "@ + crate::geometry::fixed3_text(grid) + " mm"@
}

/// Goes to the next step of the grid, and says which it is.
pub fn cycle_grid(grid: Double) -> (r: (Double, String))
    requires
        grid.wf(),
        grid.within(1000),
    ensures
        r.0 == next_grid(grid),
        r.0.wf(),
        r.0.within(60),
        r.1@ == grid_text(next_grid(grid)),
{
    let near = ratio(1, 1_000_000_000);
    let mut i: usize = 0;
    let mut at: usize = 2;
    while i < 5
        invariant_except_break
            i <= 5,
            grid.wf(),
            grid.within(1000),
            near == crate::double::spec_ratio(1, 1_000_000_000),
            near.wf(),
            at == 2,
            grid_place(grid, 0) == grid_place(grid, i as nat),
        ensures
            at < 5,
            at == grid_place(grid, 0),
        decreases 5 - i,
    {
        if find_grid_step(i).minus(grid).abs().less(near) {
            at = i;
            break;
        }
        i = i + 1;
    }
    let next = find_grid_step((at + 1) % 5);
    let said = joined3("Grid · ", format_fixed3(next).as_str(), " mm");
    (next, said)
}

/// Turns snapping on or off, and says which.
pub fn toggle_snap(on: bool) -> (r: (bool, String))
    ensures
        r.0 == !on,
        r.1@ == "Snap · "@ + on_off(!on),
{
    (!on, joined("Snap · ", say_on_off(!on)))
}

/// A tool that changes the settings, and what is then said.
pub fn toggle_setting(action: ToolbarAction, settings: &mut ViewerSettings) -> (r: Option<String>)
    requires
        old(settings).wf(),
        old(settings).ui_scale.within(1000),
    ensures
        match action {
            ToolbarAction::UiScale => *final(settings) == (ViewerSettings {
                ui_scale: old(settings).spec_next_scale(),
                ..*old(settings)
            }) && (r matches Some(said) && said@ == "Interface text · "@ + percent(
                final(settings).ui_scale,
            )),
            ToolbarAction::HighlightChanges => *final(settings) == (ViewerSettings {
                highlight_changes: !old(settings).highlight_changes,
                ..*old(settings)
            }) && (r matches Some(said) && said@ == "Highlight changes · "@ + on_off(
                final(settings).highlight_changes,
            )),
            ToolbarAction::FollowChanges => *final(settings) == (ViewerSettings {
                follow_changes: !old(settings).follow_changes,
                ..*old(settings)
            }) && (r matches Some(said) && said@ == "Follow external changes · "@ + on_off(
                final(settings).follow_changes,
            )),
            ToolbarAction::Theme => *final(settings) == (ViewerSettings {
                dark_theme: !old(settings).dark_theme,
                ..*old(settings)
            }) && (r matches Some(said) && said@ == "Theme · "@ + theme_text(
                final(settings).dark_theme,
            )),
            _ => *final(settings) == *old(settings) && r is None,
        },
        final(settings).wf(),
{
    match action {
        ToolbarAction::UiScale => {
            settings.cycle_ui_scale();
            Some(joined("Interface text · ", to_percent(settings.ui_scale).as_str()))
        },
        ToolbarAction::HighlightChanges => {
            settings.highlight_changes = !settings.highlight_changes;
            Some(joined("Highlight changes · ", say_on_off(settings.highlight_changes)))
        },
        ToolbarAction::FollowChanges => {
            settings.follow_changes = !settings.follow_changes;
            Some(joined("Follow external changes · ", say_on_off(settings.follow_changes)))
        },
        ToolbarAction::Theme => {
            settings.dark_theme = !settings.dark_theme;
            Some(joined("Theme · ", say_theme(settings.dark_theme)))
        },
        _ => None,
    }
}

/// What the controls of the edit session show.
#[derive(Clone, Copy, PartialEq, Eq, Structural, Debug)]
pub struct SessionState {
    pub editing: bool,
    /// How many files have staged changes.
    pub pending: usize,
    pub conflicted: bool,
}

/// The control can be used.
pub open spec fn is_actionable(control: EditControl, session: SessionState) -> bool {
    control == EditControl::EditMode || session.pending > 0
}

/// The control stands for something that is on.
pub open spec fn is_switched_on(control: EditControl, session: SessionState) -> bool {
    control == EditControl::EditMode && session.editing
}

/// The edge of a control: a warning where what it would do is in conflict, else the accent where it
/// is on or under the pointer.
pub open spec fn control_edge(
    control: EditControl,
    session: SessionState,
    hovered: bool,
    palette: Palette,
) -> Color {
    if session.conflicted && control != EditControl::EditMode {
        palette.selection
    } else if is_switched_on(control, session) || hovered {
        palette.accent
    } else {
        palette.card_border
    }
}

/// The card of a control.
pub open spec fn control_card(
    marks: Seq<crate::paint::Painted>,
    control: EditControl,
    area: ScreenRect,
    session: SessionState,
    hovered: bool,
    palette: Palette,
) -> Seq<crate::paint::Painted> {
    let active = is_switched_on(control, session);
    crate::paint::plated(
        marks,
        Outline::Rounded(area, crate::screen::px(6)),
        if active {
            crate::paint::sheer(palette.accent, 16)
        } else {
            crate::paint::sheer(
                palette.card,
                if is_actionable(control, session) {
                    96
                } else {
                    50
                },
            )
        },
        crate::paint::tenths(
            if active || hovered {
                15
            } else {
                10
            },
        ),
        crate::paint::solid(control_edge(control, session, hovered, palette)),
    )
}

fn draw_control_card(
    canvas: &mut Canvas,
    control: EditControl,
    area: ScreenRect,
    session: SessionState,
    hovered: bool,
    palette: Palette,
)
    ensures
        final(canvas)@ == control_card(old(canvas)@, control, area, session, hovered, palette),
{
    let active = control == EditControl::EditMode && session.editing;
    let actionable = control == EditControl::EditMode || session.pending > 0;
    let edge = if session.conflicted && control != EditControl::EditMode {
        palette.selection
    } else if active || hovered {
        palette.accent
    } else {
        palette.card_border
    };
    let filling = if active {
        with_alpha(palette.accent, 16)
    } else {
        with_alpha(
            palette.card,
            if actionable {
                96
            } else {
                50
            },
        )
    };
    let width = in_tenths(
        if active || hovered {
            15
        } else {
            10
        },
    );
    canvas.plate(Outline::Rounded(area, pixels(6)), filling, width, opaque(edge));
}

/// A square of the given sides, measured from the corner of a control.
pub open spec fn square_in(area: ScreenRect, from: int, down: int, to: int, low: int) -> ScreenRect {
    ScreenRect {
        x0: crate::paint::off(area.x0, from),
        y0: crate::paint::off(area.y0, down),
        x1: crate::paint::off(area.x0, to),
        y1: crate::paint::off(area.y0, low),
    }
}

fn find_square(area: ScreenRect, from: i64, down: i64, to: i64, low: i64) -> (r: ScreenRect)
    requires
        area.wf(),
        area.within(0x2_0000),
        0 <= from <= 100,
        0 <= down <= 100,
        0 <= to <= 100,
        0 <= low <= 100,
    ensures
        r == square_in(area, from as int, down as int, to as int, low as int),
        r.wf(),
        r.within(0x2_1000),
{
    ScreenRect {
        x0: go(area.x0, from),
        y0: go(area.y0, down),
        x1: go(area.x0, to),
        y1: go(area.y0, low),
    }
}

/// The box of the edit mode, ticked where it is on.
pub open spec fn check_box(
    marks: Seq<crate::paint::Painted>,
    area: ScreenRect,
    active: bool,
    palette: Palette,
) -> Seq<crate::paint::Painted> {
    let square = square_in(area, 8, 7, 22, 21);
    let frame = marks.push(
        crate::paint::stroked(
            Outline::Rounded(square, crate::paint::tenths(25)),
            crate::paint::tenths(14),
            crate::paint::solid(
                if active {
                    palette.accent
                } else {
                    palette.card_border
                },
            ),
        ),
    );
    if active {
        frame.push(
            crate::paint::pictured(
                UiIcon::Commit,
                ScreenRect {
                    x0: crate::paint::off(square.x0, 2),
                    y0: crate::paint::off(square.y0, 2),
                    x1: crate::paint::off(square.x1, -2),
                    y1: crate::paint::off(square.y1, -2),
                },
                crate::paint::solid(palette.accent),
            ),
        )
    } else {
        frame
    }
}

fn draw_check_box(canvas: &mut Canvas, area: ScreenRect, active: bool, palette: Palette)
    requires
        area.wf(),
        area.within(0x2_0000),
    ensures
        final(canvas)@ == check_box(old(canvas)@, area, active, palette),
{
    let square = find_square(area, 8, 7, 22, 21);
    let color = if active {
        palette.accent
    } else {
        palette.card_border
    };
    canvas.stroke(Outline::Rounded(square, in_tenths(25)), in_tenths(14), opaque(color));
    if active {
        let inner = ScreenRect {
            x0: go(square.x0, 2),
            y0: go(square.y0, 2),
            x1: go(square.x1, -2),
            y1: go(square.y1, -2),
        };
        canvas.icon(UiIcon::Commit, inner, opaque(palette.accent));
    }
}

/// The words of a control: full, or pale where it cannot be used.
pub open spec fn control_ink(control: EditControl, session: SessionState, palette: Palette) -> Paint {
    if is_actionable(control, session) {
        crate::paint::solid(palette.text)
    } else {
        crate::paint::sheer(palette.text, 48)
    }
}

/// The name of a control.
pub open spec fn control_name(control: EditControl, pending: nat) -> Seq<char> {
    match control {
        EditControl::EditMode => "Edit mode"@,
        EditControl::Commit => if pending == 0 {
            "Commit"@
        } else {
            "Commit "@ + crate::text::decimal(pending)
        },
        EditControl::Discard => "Discard"@,
    }
}

/// One control of the edit session.
pub open spec fn control_painted(
    marks: Seq<crate::paint::Painted>,
    control: EditControl,
    width: Double,
    session: SessionState,
    hovered: bool,
    palette: Palette,
) -> Seq<crate::paint::Painted> {
    let area = crate::controls::control_area(control, width);
    let card = control_card(marks, control, area, session, hovered, palette);
    let ink = control_ink(control, session, palette);
    let marked = match control {
        EditControl::EditMode => check_box(card, area, session.editing, palette),
        EditControl::Commit => card.push(
            crate::paint::pictured(UiIcon::Commit, square_in(area, 7, 7, 21, 21), ink),
        ),
        EditControl::Discard => card.push(
            crate::paint::pictured(UiIcon::Discard, square_in(area, 7, 7, 21, 21), ink),
        ),
    };
    marked.push(
        crate::paint::line(
            control_name(control, session.pending as nat),
            crate::paint::tenths(105),
            crate::paint::off(
                area.x0,
                if control == EditControl::EditMode {
                    29
                } else {
                    27
                },
            ),
            area.spec_center().1,
            ink,
        ),
    )
}

fn draw_control(
    canvas: &mut Canvas,
    control: EditControl,
    width: Double,
    session: SessionState,
    hovered: bool,
    palette: Palette,
)
    requires
        crate::screen::plain(width),
    ensures
        final(canvas)@ == control_painted(
            old(canvas)@,
            control,
            width,
            session,
            hovered,
            palette,
        ),
{
    let area = control_rect(control, width);
    draw_control_card(canvas, control, area, session, hovered, palette);
    let actionable = control == EditControl::EditMode || session.pending > 0;
    let ink = if actionable {
        opaque(palette.text)
    } else {
        with_alpha(palette.text, 48)
    };
    match control {
        EditControl::EditMode => draw_check_box(canvas, area, session.editing, palette),
        EditControl::Commit => canvas.icon(UiIcon::Commit, find_square(area, 7, 7, 21, 21), ink),
        EditControl::Discard => canvas.icon(UiIcon::Discard, find_square(area, 7, 7, 21, 21), ink),
    }
    let name = match control {
        EditControl::EditMode => "Edit mode".to_owned(),
        EditControl::Commit => if session.pending == 0 {
            "Commit".to_owned()
        } else {
            joined("Commit ", to_decimal(session.pending as u128).as_str())
        },
        EditControl::Discard => "Discard".to_owned(),
    };
    let x = go(
        area.x0,
        if control == EditControl::EditMode {
            29
        } else {
            27
        },
    );
    canvas.write_line(name.as_str(), in_tenths(105), x, area.center().1, ink);
}

/// The control under the pointer.
pub open spec fn control_under(width: Double, cursor: Option<Point>) -> Option<EditControl> {
    match cursor {
        Some(p) => crate::controls::control_met(width, p.x, p.y),
        None => None,
    }
}

/// The controls of the edit session.
pub open spec fn controls_painted(
    marks: Seq<crate::paint::Painted>,
    width: Double,
    session: SessionState,
    cursor: Option<Point>,
    palette: Palette,
) -> Seq<crate::paint::Painted> {
    let hovered = control_under(width, cursor);
    let first = control_painted(
        marks,
        EditControl::EditMode,
        width,
        session,
        hovered == Some(EditControl::EditMode),
        palette,
    );
    let second = control_painted(
        first,
        EditControl::Commit,
        width,
        session,
        hovered == Some(EditControl::Commit),
        palette,
    );
    control_painted(
        second,
        EditControl::Discard,
        width,
        session,
        hovered == Some(EditControl::Discard),
        palette,
    )
}

/// The pointer, where it is known.
pub open spec fn cursor_wf(cursor: Option<Point>) -> bool {
    cursor matches Some(p) ==> crate::screen::plain(p.x) && crate::screen::plain(p.y)
}

/// Paints the controls of the edit session.
pub fn draw_edit_controls(
    canvas: &mut Canvas,
    width: Double,
    session: SessionState,
    cursor: Option<Point>,
    palette: Palette,
)
    requires
        crate::screen::plain(width),
        cursor_wf(cursor),
    ensures
        final(canvas)@ == controls_painted(old(canvas)@, width, session, cursor, palette),
{
    let hovered = match cursor {
        Some(p) => control_at(width, p.x, p.y),
        None => None,
    };
    let editing = hovered == Some(EditControl::EditMode);
    draw_control(canvas, EditControl::EditMode, width, session, editing, palette);
    let committing = hovered == Some(EditControl::Commit);
    draw_control(canvas, EditControl::Commit, width, session, committing, palette);
    let discarding = hovered == Some(EditControl::Discard);
    draw_control(canvas, EditControl::Discard, width, session, discarding, palette);
}

/// One tool.
pub open spec fn tool_painted(
    marks: Seq<crate::paint::Painted>,
    i: int,
    state: ToolState,
    hovered: Option<ToolbarAction>,
    palette: Palette,
) -> Seq<crate::paint::Painted> {
    let action = crate::controls::tool_of(i);
    let area = crate::controls::tool_area(i);
    let active = is_active(action, state);
    let under = hovered == Some(action);
    crate::paint::plated(
        marks,
        Outline::Rounded(area, crate::screen::px(7)),
        if under {
            crate::paint::sheer(palette.accent, 16)
        } else if active {
            crate::paint::sheer(palette.accent, 10)
        } else {
            crate::paint::solid(palette.card)
        },
        crate::paint::tenths(
            if active || under {
                15
            } else {
                10
            },
        ),
        crate::paint::solid(
            if active || under {
                palette.accent
            } else {
                palette.card_border
            },
        ),
    ).push(
        crate::paint::pictured(
            crate::controls::icon_of_tool(action),
            ScreenRect {
                x0: crate::paint::off(area.x0, 7),
                y0: crate::paint::off(area.y0, 7),
                x1: crate::paint::off(area.x1, -7),
                y1: crate::paint::off(area.y1, -7),
            },
            crate::paint::solid(
                if active || under {
                    palette.accent
                } else {
                    palette.text
                },
            ),
        ),
    )
}

fn draw_tool(
    canvas: &mut Canvas,
    i: usize,
    action: ToolbarAction,
    state: &ToolState,
    hovered: Option<ToolbarAction>,
    palette: Palette,
)
    requires
        i < TOOLS,
        action == crate::controls::tool_of(i as int),
    ensures
        final(canvas)@ == tool_painted(old(canvas)@, i as int, *state, hovered, palette),
{
    let area = tool_rect(i);
    let active = toolbar_action_is_active(action, state);
    let under = hovered == Some(action);
    let filling = if under {
        with_alpha(palette.accent, 16)
    } else if active {
        with_alpha(palette.accent, 10)
    } else {
        opaque(palette.card)
    };
    let width = in_tenths(
        if active || under {
            15
        } else {
            10
        },
    );
    let edge = if active || under {
        palette.accent
    } else {
        palette.card_border
    };
    canvas.plate(Outline::Rounded(area, pixels(7)), filling, width, opaque(edge));
    let inner = ScreenRect {
        x0: go(area.x0, 7),
        y0: go(area.y0, 7),
        x1: go(area.x1, -7),
        y1: go(area.y1, -7),
    };
    let ink = if active || under {
        palette.accent
    } else {
        palette.text
    };
    canvas.icon(toolbar_icon(action), inner, opaque(ink));
}

/// The first `n` tools.
pub open spec fn tools_painted(
    marks: Seq<crate::paint::Painted>,
    state: ToolState,
    hovered: Option<ToolbarAction>,
    palette: Palette,
    n: nat,
) -> Seq<crate::paint::Painted>
    decreases n,
{
    if n == 0 {
        marks
    } else {
        tool_painted(
            tools_painted(marks, state, hovered, palette, (n - 1) as nat),
            n - 1,
            state,
            hovered,
            palette,
        )
    }
}

fn draw_tools(
    canvas: &mut Canvas,
    state: &ToolState,
    hovered: Option<ToolbarAction>,
    palette: Palette,
)
    ensures
        final(canvas)@ == tools_painted(old(canvas)@, *state, hovered, palette, TOOLS as nat),
{
    let buttons = toolbar_buttons();
    let mut i: usize = 0;
    while i < TOOLS
        invariant
            i <= TOOLS,
            buttons@ == Seq::new(
                TOOLS as nat,
                |k: int| (crate::controls::tool_of(k), crate::controls::tool_area(k)),
            ),
            canvas@ == tools_painted(old(canvas)@, *state, hovered, palette, i as nat),
        decreases TOOLS - i,
    {
        draw_tool(canvas, i, buttons[i].0, state, hovered, palette);
        i = i + 1;
    }
}

/// 7.8, the room that a letter of the file's name takes.
pub open spec fn name_letter() -> Double {
    Double { negative: false, mantissa: 0x1f_3333_3333_3333, exponent: (-50) as i64 }
}

/// 6.3, the room that a letter of the status takes.
pub open spec fn status_letter() -> Double {
    Double { negative: false, mantissa: 0x19_3333_3333_3333, exponent: (-50) as i64 }
}

/// Where the status begins: after the name of the file.
pub open spec fn status_left(name_len: nat) -> Double {
    crate::screen::px(SIDEBAR_WIDTH + 24).spec_sum(
        crate::screen::px(name_len as int).spec_product(name_letter()),
    )
}

/// How many letters of the status fit before the controls of the edit session.
pub open spec fn status_room(width: Double, name_len: nat) -> nat {
    let left = crate::controls::control_area(EditControl::EditMode, width).x0;
    let n = crate::geometry::spec_greater(
        crate::paint::off(left.spec_difference(status_left(name_len)), -12).spec_quotient(
            status_letter(),
        ),
        crate::screen::px(0),
    ).spec_to_i64();
    if n >= 0 {
        n as nat
    } else {
        0
    }
}

fn find_status_left(name_len: usize) -> (r: Double)
    requires
        name_len <= 0x1000_0000,
    ensures
        r == status_left(name_len as nat),
        r.wf(),
        r.within(2000),
{
    let letter = Double { negative: false, mantissa: 0x1f_3333_3333_3333, exponent: -50 };
    pixels(SIDEBAR_WIDTH + 24).plus(pixels(name_len as i64).times(letter))
}

fn cut_status(status: &str, width: Double, name_len: usize) -> (r: String)
    requires
        crate::screen::plain(width),
        name_len <= 0x1000_0000,
    ensures
        r@ == crate::ui_text::truncated(status@, status_room(width, name_len as nat)),
{
    let letter = Double { negative: false, mantissa: 0x19_3333_3333_3333, exponent: -50 };
    let left = control_rect(EditControl::EditMode, width).x0;
    let room = go(left.minus(find_status_left(name_len)), -12).divided_by(letter);
    let n: i64 = greater(room, pixels(0)).to_i64();
    let chars = chars_of(status).len();
    let wanted: u64 = if n >= 0 {
        n as u64
    } else {
        0
    };
    if wanted >= chars as u64 {
        proof {
            assert(crate::ui_text::truncated(status@, status_room(width, name_len as nat))
                =~= status@);
        }
        status.to_owned()
    } else {
        truncate_ui(status, wanted as usize)
    }
}

/// The bar of tools and the line of status, without the controls and tools on them.
pub open spec fn bars_painted(
    marks: Seq<crate::paint::Painted>,
    width: Double,
    height: Double,
    filename: Seq<char>,
    status: Seq<char>,
    palette: Palette,
) -> Seq<crate::paint::Painted> {
    let none = crate::screen::px(0);
    let side = crate::screen::px(SIDEBAR_WIDTH as int);
    let middle = crate::screen::px(STATUS_HEIGHT / 2);
    marks.push(
        crate::paint::filled(
            Outline::Rect(ScreenRect { x0: none, y0: none, x1: side, y1: height }),
            crate::paint::solid(palette.toolbar),
        ),
    ).push(
        crate::paint::filled(
            Outline::Rect(
                ScreenRect {
                    x0: side,
                    y0: none,
                    x1: width,
                    y1: crate::screen::px(STATUS_HEIGHT as int),
                },
            ),
            crate::paint::sheer(palette.app, 94),
        ),
    ).push(
        crate::paint::worded(
            "KONNECT"@,
            crate::paint::tenths(105),
            Point { x: crate::screen::px(SIDEBAR_WIDTH / 2), y: middle },
            TextAlign::Center,
            crate::paint::solid(palette.accent),
        ),
    ).push(
        crate::paint::line(
            filename,
            crate::screen::px(12),
            crate::screen::px(SIDEBAR_WIDTH + 14),
            middle,
            crate::paint::solid(palette.accent),
        ),
    ).push(
        crate::paint::line(
            crate::ui_text::truncated(status, status_room(width, filename.len())),
            crate::paint::tenths(105),
            status_left(filename.len()),
            middle,
            crate::paint::solid(palette.text),
        ),
    )
}

fn draw_bars(
    canvas: &mut Canvas,
    width: Double,
    height: Double,
    filename: &str,
    status: &str,
    palette: Palette,
)
    requires
        crate::screen::plain(width),
        filename@.len() <= 0x1000_0000,
    ensures
        final(canvas)@ == bars_painted(
            old(canvas)@,
            width,
            height,
            filename@,
            status@,
            palette,
        ),
{
    let none = pixels(0);
    let side = pixels(SIDEBAR_WIDTH);
    let middle = pixels(STATUS_HEIGHT / 2);
    let bar = ScreenRect { x0: none, y0: none, x1: side, y1: height };
    canvas.fill(Outline::Rect(bar), opaque(palette.toolbar));
    let line = ScreenRect { x0: side, y0: none, x1: width, y1: pixels(STATUS_HEIGHT) };
    canvas.fill(Outline::Rect(line), with_alpha(palette.app, 94));
    canvas.write(
        "KONNECT",
        in_tenths(105),
        Point { x: pixels(SIDEBAR_WIDTH / 2), y: middle },
        TextAlign::Center,
        opaque(palette.accent),
    );
    let left = pixels(SIDEBAR_WIDTH + 14);
    canvas.write_line(filename, pixels(12), left, middle, opaque(palette.accent));
    let name_len = chars_of(filename).len();
    let shown = cut_status(status, width, name_len);
    let at = find_status_left(name_len);
    canvas.write_line(shown.as_str(), in_tenths(105), at, middle, opaque(palette.text));
}

/// Where the words on a tool stand: beside the pointer, as wide as they are.
pub open spec fn tip_area(width: Double, cursor: Point, words_width: Double) -> ScreenRect {
    ScreenRect {
        x0: crate::screen::px(SIDEBAR_WIDTH + 8),
        y0: crate::geometry::spec_greater(crate::paint::off(cursor.y, -17), crate::screen::px(42)),
        x1: crate::geometry::spec_lesser(
            crate::screen::px(SIDEBAR_WIDTH + 34).spec_sum(words_width),
            crate::paint::off(width, -8),
        ),
        y1: crate::geometry::spec_greater(crate::paint::off(cursor.y, 17), crate::screen::px(76)),
    }
}

/// The size at which the words on a tool are measured.
pub open spec fn tip_size(ui_scale: Double) -> Double {
    crate::screen::px(10).spec_product(ui_scale).spec_single()
}

/// The words on a tool.
pub open spec fn tip_painted(
    marks: Seq<crate::paint::Painted>,
    area: ScreenRect,
    words: Seq<char>,
    palette: Palette,
) -> Seq<crate::paint::Painted> {
    crate::paint::plated(
        marks,
        Outline::Rounded(area, crate::screen::px(6)),
        crate::paint::sheer(palette.card, 98),
        crate::screen::px(1),
        crate::paint::solid(palette.card_border),
    ).push(
        crate::paint::line(
            words,
            crate::screen::px(10),
            crate::paint::off(area.x0, 10),
            area.spec_center().1,
            crate::paint::solid(palette.text),
        ),
    )
}

fn draw_tip(
    canvas: &mut Canvas,
    width: Double,
    cursor: Point,
    words: &str,
    words_width: Double,
    palette: Palette,
)
    requires
        crate::screen::plain(width),
        crate::screen::plain(cursor.y),
        words_width.wf(),
        words_width.within(0x200_0000_0000),
    ensures
        final(canvas)@ == tip_painted(
            old(canvas)@,
            tip_area(width, cursor, words_width),
            words@,
            palette,
        ),
{
    let area = ScreenRect {
        x0: pixels(SIDEBAR_WIDTH + 8),
        y0: greater(go(cursor.y, -17), pixels(42)),
        x1: lesser(pixels(SIDEBAR_WIDTH + 34).plus(words_width), go(width, -8)),
        y1: greater(go(cursor.y, 17), pixels(76)),
    };
    canvas.plate(
        Outline::Rounded(area, pixels(6)),
        with_alpha(palette.card, 98),
        pixels(1),
        opaque(palette.card_border),
    );
    let middle = area.center().1;
    canvas.write_line(words, pixels(10), go(area.x0, 10), middle, opaque(palette.text));
}

/// The tool under the pointer.
pub open spec fn tool_under(cursor: Option<Point>) -> Option<ToolbarAction> {
    match cursor {
        Some(p) => crate::controls::tool_met(p.x, p.y, 0),
        None => None,
    }
}

/// The bar of tools, the line of status and the controls of the edit session. The words on the tool
/// under the pointer take the room that the font gives them.
pub open spec fn toolbar_painted<F: Fn(String) -> Option<ShapedText> + Copy>(
    marks: Seq<crate::paint::Painted>,
    width: Double,
    height: Double,
    filename: Seq<char>,
    status: Seq<char>,
    session: SessionState,
    state: ToolState,
    cursor: Option<Point>,
    font: NativeFont<F>,
    palette: Palette,
) -> Seq<crate::paint::Painted> {
    let hovered = tool_under(cursor);
    let tools = tools_painted(
        controls_painted(
            bars_painted(marks, width, height, filename, status, palette),
            width,
            session,
            cursor,
            palette,
        ),
        state,
        hovered,
        palette,
        TOOLS as nat,
    );
    match (hovered, cursor) {
        (Some(action), Some(at)) => {
            let words = label_of(action, state);
            let words_width = font.measured(tip_size(state.settings.ui_scale), words);
            tip_painted(tools, tip_area(width, at, words_width), words, palette)
        },
        _ => tools,
    }
}

/// Paints the bar of tools, the line of status and the controls of the edit session.
pub fn draw_toolbar<F: Fn(String) -> Option<ShapedText> + Copy>(
    canvas: &mut Canvas,
    width: Double,
    height: Double,
    filename: &str,
    status: &str,
    session: SessionState,
    state: &ToolState,
    cursor: Option<Point>,
    font: &NativeFont<F>,
    palette: Palette,
)
    requires
        crate::screen::plain(width),
        crate::screen::plain(height),
        cursor_wf(cursor),
        state.wf(),
        font.wf(),
        filename@.len() <= 0x1000_0000,
    ensures
        final(canvas)@ == toolbar_painted(
            old(canvas)@,
            width,
            height,
            filename@,
            status@,
            session,
            *state,
            cursor,
            *font,
            palette,
        ),
{
    draw_bars(canvas, width, height, filename, status, palette);
    draw_edit_controls(canvas, width, session, cursor, palette);
    let hovered = match cursor {
        Some(p) => tool_at_point(p.x, p.y),
        None => None,
    };
    draw_tools(canvas, state, hovered, palette);
    match (hovered, cursor) {
        (Some(action), Some(at)) => {
            let words = toolbar_label(action, state);
            let size = pixels(10).times(state.settings.ui_scale).single();
            let laid = font.measure_and_glyphs(size, words.as_str());
            draw_tip(canvas, width, at, words.as_str(), laid.width, palette);
        },
        _ => {},
    }
}

} // verus!
