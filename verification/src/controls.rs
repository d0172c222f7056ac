//! The controls of the window: what they are, where they stand, and which of them a point of
//! the window meets.

use crate::change_timeline::{ChangeEvent, ChangeTimeline};
use crate::double::{ratio, Double};
use crate::geometry::{greater, lesser};
use crate::icons::UiIcon;
use crate::screen::{
    pixels,
    ScreenRect,
    DIAGNOSTICS_HEADER_HEIGHT,
    DIAGNOSTICS_PANEL_WIDTH,
    FILMSTRIP_HEIGHT,
    SIDEBAR_WIDTH,
    STATUS_HEIGHT,
    THUMBNAIL_GAP,
    THUMBNAIL_WIDTH,
    TIMELINE_HEIGHT,
};
use crate::viewer_settings::{clamp, ViewerSettings};
use vstd::prelude::*;

verus! {

/// A control of the edit session.
#[derive(Clone, Copy, PartialEq, Eq, Structural, Debug)]
pub enum EditControl {
    EditMode,
    Commit,
    Discard,
}

/// Where a control of the edit session stands.
pub open spec fn control_area(control: EditControl, width: Double) -> ScreenRect {
    let discard = width.spec_difference(crate::screen::px(10)).spec_difference(
        crate::screen::px(82),
    );
    let commit = discard.spec_difference(crate::screen::px(6)).spec_difference(
        crate::screen::px(82),
    );
    let edit = commit.spec_difference(crate::screen::px(6)).spec_difference(
        crate::screen::px(112),
    );
    let (x0, wide) = match control {
        EditControl::EditMode => (edit, crate::screen::px(112)),
        EditControl::Commit => (commit, crate::screen::px(82)),
        EditControl::Discard => (discard, crate::screen::px(82)),
    };
    ScreenRect {
        x0,
        y0: crate::screen::px(6),
        x1: x0.spec_sum(wide),
        y1: crate::screen::px(34),
    }
}

/// Where a control of the edit session stands.
pub fn control_rect(control: EditControl, width: Double) -> (r: ScreenRect)
    requires
        crate::screen::plain(width),
    ensures
        r == control_area(control, width),
        r.wf(),
        r.within(0x2_0000),
{
    let discard = width.minus(pixels(10)).minus(pixels(82));
    let commit = discard.minus(pixels(6)).minus(pixels(82));
    let edit = commit.minus(pixels(6)).minus(pixels(112));
    let (x0, wide) = match control {
        EditControl::EditMode => (edit, pixels(112)),
        EditControl::Commit => (commit, pixels(82)),
        EditControl::Discard => (discard, pixels(82)),
    };
    ScreenRect { x0, y0: pixels(6), x1: x0.plus(wide), y1: pixels(34) }
}

/// The controls of the edit session with their places, from left to right.
pub fn edit_controls(width: Double) -> (r: Vec<(EditControl, ScreenRect)>)
    requires
        crate::screen::plain(width),
    ensures
        r@ == seq![
            (EditControl::EditMode, control_area(EditControl::EditMode, width)),
            (EditControl::Commit, control_area(EditControl::Commit, width)),
            (EditControl::Discard, control_area(EditControl::Discard, width)),
        ],
{
    let mut r: Vec<(EditControl, ScreenRect)> = Vec::new();
    r.push((EditControl::EditMode, control_rect(EditControl::EditMode, width)));
    r.push((EditControl::Commit, control_rect(EditControl::Commit, width)));
    r.push((EditControl::Discard, control_rect(EditControl::Discard, width)));
    r
}

/// The control of the edit session at a point.
pub open spec fn control_met(width: Double, x: Double, y: Double) -> Option<EditControl> {
    if control_area(EditControl::EditMode, width).holds(x, y) {
        Some(EditControl::EditMode)
    } else if control_area(EditControl::Commit, width).holds(x, y) {
        Some(EditControl::Commit)
    } else if control_area(EditControl::Discard, width).holds(x, y) {
        Some(EditControl::Discard)
    } else {
        None
    }
}

/// The control of the edit session at a point.
pub fn control_at(width: Double, x: Double, y: Double) -> (r: Option<EditControl>)
    requires
        crate::screen::plain(width),
        x.wf(),
        y.wf(),
    ensures
        r == control_met(width, x, y),
{
    if control_rect(EditControl::EditMode, width).contains(x, y) {
        Some(EditControl::EditMode)
    } else if control_rect(EditControl::Commit, width).contains(x, y) {
        Some(EditControl::Commit)
    } else if control_rect(EditControl::Discard, width).contains(x, y) {
        Some(EditControl::Discard)
    } else {
        None
    }
}

/// A tool of the bar.
#[derive(Clone, Copy, PartialEq, Eq, Structural, Debug)]
pub enum ToolbarAction {
    Undo,
    Redo,
    ZoomIn,
    ZoomOut,
    Fit,
    Grid,
    Snap,
    UiScale,
    HighlightChanges,
    FollowChanges,
    TextSelect,
    Theme,
}

/// How many tools there are.
pub const TOOLS: usize = 12;

/// The tools, row by row.
pub open spec fn tool_of(i: int) -> ToolbarAction {
    if i == 0 {
        ToolbarAction::Undo
    } else if i == 1 {
        ToolbarAction::Redo
    } else if i == 2 {
        ToolbarAction::ZoomIn
    } else if i == 3 {
        ToolbarAction::ZoomOut
    } else if i == 4 {
        ToolbarAction::Fit
    } else if i == 5 {
        ToolbarAction::Grid
    } else if i == 6 {
        ToolbarAction::Snap
    } else if i == 7 {
        ToolbarAction::UiScale
    } else if i == 8 {
        ToolbarAction::HighlightChanges
    } else if i == 9 {
        ToolbarAction::FollowChanges
    } else if i == 10 {
        ToolbarAction::TextSelect
    } else {
        ToolbarAction::Theme
    }
}

fn tool(i: usize) -> (r: ToolbarAction)
    requires
        i < TOOLS,
    ensures
        r == tool_of(i as int),
{
    match i {
        0 => ToolbarAction::Undo,
        1 => ToolbarAction::Redo,
        2 => ToolbarAction::ZoomIn,
        3 => ToolbarAction::ZoomOut,
        4 => ToolbarAction::Fit,
        5 => ToolbarAction::Grid,
        6 => ToolbarAction::Snap,
        7 => ToolbarAction::UiScale,
        8 => ToolbarAction::HighlightChanges,
        9 => ToolbarAction::FollowChanges,
        10 => ToolbarAction::TextSelect,
        _ => ToolbarAction::Theme,
    }
}

/// No tool stands twice in the bar.
pub proof fn tools_are_distinct(i: int, j: int)
    requires
        0 <= i < TOOLS,
        0 <= j < TOOLS,
        tool_of(i) == tool_of(j),
    ensures
        i == j,
{
}

/// Where a tool stands: two to a row.
pub open spec fn tool_area(i: int) -> ScreenRect {
    let x = 8 + 44 * (i % 2);
    let y = 52 + 43 * (i / 2);
    ScreenRect {
        x0: crate::screen::px(x),
        y0: crate::screen::px(y),
        x1: crate::screen::px(x + 36),
        y1: crate::screen::px(y + 36),
    }
}

/// Where a tool stands.
pub fn tool_rect(i: usize) -> (r: ScreenRect)
    requires
        i < TOOLS,
    ensures
        r == tool_area(i as int),
        r.wf(),
        r.within(100),
{
    let x: i64 = 8 + 44 * ((i % 2) as i64);
    let y: i64 = 52 + 43 * ((i / 2) as i64);
    ScreenRect { x0: pixels(x), y0: pixels(y), x1: pixels(x + 36), y1: pixels(y + 36) }
}

/// The tools with their places.
pub fn toolbar_buttons() -> (r: Vec<(ToolbarAction, ScreenRect)>)
    ensures
        r@ == Seq::new(TOOLS as nat, |i: int| (tool_of(i), tool_area(i))),
{
    let mut r: Vec<(ToolbarAction, ScreenRect)> = Vec::new();
    let mut i: usize = 0;
    while i < TOOLS
        invariant
            i <= TOOLS,
            r@.len() == i,
            forall|k: int| 0 <= k < i ==> #[trigger] r@[k] == (tool_of(k), tool_area(k)),
        decreases TOOLS - i,
    {
        r.push((tool(i), tool_rect(i)));
        i = i + 1;
    }
    proof {
        assert(r@ =~= Seq::new(TOOLS as nat, |i: int| (tool_of(i), tool_area(i))));
    }
    r
}

/// The first tool from the `i`-th on that a point meets.
pub open spec fn tool_met(x: Double, y: Double, i: nat) -> Option<ToolbarAction>
    decreases TOOLS - i,
{
    if i >= TOOLS {
        None
    } else if tool_area(i as int).holds(x, y) {
        Some(tool_of(i as int))
    } else {
        tool_met(x, y, i + 1)
    }
}

/// The tool at a point.
pub fn tool_at_point(x: Double, y: Double) -> (r: Option<ToolbarAction>)
    requires
        x.wf(),
        y.wf(),
    ensures
        r == tool_met(x, y, 0),
{
    let mut i: usize = 0;
    while i < TOOLS
        invariant
            i <= TOOLS,
            x.wf(),
            y.wf(),
            tool_met(x, y, 0) == tool_met(x, y, i as nat),
        decreases TOOLS - i,
    {
        if tool_rect(i).contains(x, y) {
            return Some(tool(i));
        }
        i = i + 1;
    }
    None
}

/// The icon of a tool.
pub open spec fn icon_of_tool(action: ToolbarAction) -> UiIcon {
    match action {
        ToolbarAction::Undo => UiIcon::Undo,
        ToolbarAction::Redo => UiIcon::Redo,
        ToolbarAction::ZoomIn => UiIcon::ZoomIn,
        ToolbarAction::ZoomOut => UiIcon::ZoomOut,
        ToolbarAction::Fit => UiIcon::Fit,
        ToolbarAction::Grid => UiIcon::Grid,
        ToolbarAction::Snap => UiIcon::Snap,
        ToolbarAction::UiScale => UiIcon::Scale,
        ToolbarAction::HighlightChanges => UiIcon::Highlight,
        ToolbarAction::FollowChanges => UiIcon::Follow,
        ToolbarAction::TextSelect => UiIcon::TextSelect,
        ToolbarAction::Theme => UiIcon::Theme,
    }
}

/// The icon of a tool.
pub fn toolbar_icon(action: ToolbarAction) -> (r: UiIcon)
    ensures
        r == icon_of_tool(action),
{
    match action {
        ToolbarAction::Undo => UiIcon::Undo,
        ToolbarAction::Redo => UiIcon::Redo,
        ToolbarAction::ZoomIn => UiIcon::ZoomIn,
        ToolbarAction::ZoomOut => UiIcon::ZoomOut,
        ToolbarAction::Fit => UiIcon::Fit,
        ToolbarAction::Grid => UiIcon::Grid,
        ToolbarAction::Snap => UiIcon::Snap,
        ToolbarAction::UiScale => UiIcon::Scale,
        ToolbarAction::HighlightChanges => UiIcon::Highlight,
        ToolbarAction::FollowChanges => UiIcon::Follow,
        ToolbarAction::TextSelect => UiIcon::TextSelect,
        ToolbarAction::Theme => UiIcon::Theme,
    }
}

/// No two tools have one icon.
pub proof fn tools_look_different(a: ToolbarAction, b: ToolbarAction)
    requires
        icon_of_tool(a) == icon_of_tool(b),
    ensures
        a == b,
{
}

/// From the left of one card to that of the next.
pub const CARD_PITCH: i64 = 158;

/// No more sheets are shown.
pub const MOST_SHEETS: usize = 0x1000_0000;

/// Where the card of a sheet stands.
pub open spec fn card_area(index: int, height: Double, scroll: Double) -> ScreenRect {
    let x0 = crate::screen::px(
        SIDEBAR_WIDTH + THUMBNAIL_GAP + index * CARD_PITCH,
    ).spec_difference(scroll);
    ScreenRect {
        x0,
        y0: height.spec_difference(crate::screen::px(FILMSTRIP_HEIGHT as int)).spec_sum(
            crate::screen::px(9),
        ),
        x1: x0.spec_sum(crate::screen::px(THUMBNAIL_WIDTH as int)),
        y1: height.spec_difference(crate::screen::px(TIMELINE_HEIGHT as int)).spec_difference(
            crate::screen::px(9),
        ),
    }
}

/// Where the card of a sheet stands.
pub fn thumbnail_rect(index: usize, height: Double, scroll: Double) -> (r: ScreenRect)
    requires
        index <= MOST_SHEETS,
        crate::screen::plain(height),
        crate::screen::plain(scroll),
    ensures
        r == card_area(index as int, height, scroll),
        r.wf(),
        r.within(0x2_0000),
{
    let left: i64 = SIDEBAR_WIDTH + THUMBNAIL_GAP + (index as i64) * CARD_PITCH;
    let x0 = pixels(left).minus(scroll);
    ScreenRect {
        x0,
        y0: height.minus(pixels(FILMSTRIP_HEIGHT)).plus(pixels(9)),
        x1: x0.plus(pixels(THUMBNAIL_WIDTH)),
        y1: height.minus(pixels(TIMELINE_HEIGHT)).minus(pixels(9)),
    }
}

/// The first sheet from the `i`-th of `count` on whose card a point meets.
pub open spec fn card_met(
    count: nat,
    height: Double,
    scroll: Double,
    x: Double,
    y: Double,
    i: nat,
) -> Option<usize>
    decreases count - i,
{
    if i >= count {
        None
    } else if card_area(i as int, height, scroll).holds(x, y) {
        Some(i as usize)
    } else {
        card_met(count, height, scroll, x, y, i + 1)
    }
}

/// The sheet whose card stands at a point.
pub fn card_at(count: usize, height: Double, scroll: Double, x: Double, y: Double) -> (r: Option<
    usize,
>)
    requires
        count <= MOST_SHEETS,
        crate::screen::plain(height),
        crate::screen::plain(scroll),
        x.wf(),
        y.wf(),
    ensures
        r == card_met(count as nat, height, scroll, x, y, 0),
        r matches Some(i) ==> i < count,
{
    let mut i: usize = 0;
    while i < count
        invariant
            i <= count <= MOST_SHEETS,
            crate::screen::plain(height),
            crate::screen::plain(scroll),
            x.wf(),
            y.wf(),
            card_met(count as nat, height, scroll, x, y, 0) == card_met(
                count as nat,
                height,
                scroll,
                x,
                y,
                i as nat,
            ),
        decreases count - i,
    {
        if thumbnail_rect(i, height, scroll).contains(x, y) {
            return Some(i);
        }
        i = i + 1;
    }
    None
}

/// How far the strip of sheets is moved after a turn of the wheel.
pub open spec fn film_moved(scroll: Double, amount: Double, count: int, width: Double) -> Double {
    let content = crate::screen::px(count * CARD_PITCH + THUMBNAIL_GAP);
    crate::viewer_settings::clamped(
        scroll.spec_difference(amount),
        crate::screen::px(0),
        crate::geometry::spec_greater(content.spec_difference(width), crate::screen::px(0)),
    )
}

/// How far the strip of sheets is moved after a turn of the wheel: never before its first card,
/// nor so far that nothing fills the window.
pub fn scroll_film(scroll: Double, amount: Double, count: usize, width: Double) -> (r: Double)
    requires
        crate::screen::plain(scroll),
        crate::screen::plain(amount),
        crate::screen::plain(width),
        count <= MOST_SHEETS,
    ensures
        r == film_moved(scroll, amount, count as int, width),
        r.wf(),
{
    let content: i64 = (count as i64) * CARD_PITCH + THUMBNAIL_GAP;
    let none = pixels(0);
    clamp(scroll.minus(amount), none, greater(pixels(content).minus(width), none))
}

/// How many changes the timeline shows.
pub open spec fn changes_shown(width: Double) -> int {
    let room = crate::geometry::spec_greater(
        width.spec_difference(crate::screen::px(SIDEBAR_WIDTH as int)).spec_difference(
            crate::screen::px(96),
        ).spec_difference(crate::screen::px(20)),
        crate::screen::px(138),
    );
    crate::geometry::spec_greater(
        room.spec_sum(crate::screen::px(6)).spec_quotient(crate::screen::px(144)).spec_floor(),
        crate::screen::px(1),
    ).spec_to_i64()
}

/// How many changes the timeline shows.
pub fn visible_changes(width: Double) -> (r: u64)
    requires
        crate::screen::plain(width),
    ensures
        r == (if changes_shown(width) >= 0 {
            changes_shown(width)
        } else {
            0
        }),
{
    let room = greater(
        width.minus(pixels(SIDEBAR_WIDTH)).minus(pixels(96)).minus(pixels(20)),
        pixels(138),
    );
    let whole = room.plus(pixels(6)).divided_by(pixels(144)).floored();
    let n: i64 = greater(whole, pixels(1)).to_i64();
    if n >= 0 {
        n as u64
    } else {
        0
    }
}

/// How many of the latest changes are passed over after a turn of the wheel.
pub open spec fn timeline_moved(scroll: int, amount: Double, count: int, shown: int) -> int {
    let most = if count > shown {
        count - shown
    } else {
        0
    };
    if crate::screen::px(0).spec_less(amount) {
        if scroll + 1 < most {
            scroll + 1
        } else {
            most
        }
    } else if amount.spec_less(crate::screen::px(0)) {
        if scroll > 0 {
            scroll - 1
        } else {
            0
        }
    } else {
        scroll
    }
}

/// How many of the latest changes are passed over after a turn of the wheel.
pub fn scroll_timeline(scroll: usize, amount: Double, count: usize, width: Double) -> (r: usize)
    requires
        crate::screen::plain(width),
        amount.wf(),
    ensures
        r == timeline_moved(
            scroll as int,
            amount,
            count as int,
            if changes_shown(width) >= 0 {
                changes_shown(width)
            } else {
                0
            },
        ),
{
    let shown: u64 = visible_changes(width);
    let most: usize = if count as u64 > shown {
        (count as u64 - shown) as usize
    } else {
        0
    };
    let none = pixels(0);
    if none.less(amount) {
        if scroll < most && scroll + 1 < most {
            scroll + 1
        } else {
            most
        }
    } else if amount.less(none) {
        if scroll > 0 {
            scroll - 1
        } else {
            0
        }
    } else {
        scroll
    }
}

/// Where the `i`-th shown change stands.
pub open spec fn change_area(i: int, height: Double) -> ScreenRect {
    let left = SIDEBAR_WIDTH + 96 + i * 144;
    ScreenRect {
        x0: crate::screen::px(left),
        y0: height.spec_difference(crate::screen::px(TIMELINE_HEIGHT as int)).spec_sum(
            crate::screen::px(7),
        ),
        x1: crate::screen::px(left + 138),
        y1: height.spec_difference(crate::screen::px(7)),
    }
}

fn change_rect(i: usize, height: Double) -> (r: ScreenRect)
    requires
        i <= MOST_SHEETS,
        crate::screen::plain(height),
    ensures
        r == change_area(i as int, height),
        r.wf(),
        r.within(0x2_0000),
{
    let left: i64 = SIDEBAR_WIDTH + 96 + (i as i64) * 144;
    ScreenRect {
        x0: pixels(left),
        y0: height.minus(pixels(TIMELINE_HEIGHT)).plus(pixels(7)),
        x1: pixels(left + 138),
        y1: height.minus(pixels(7)),
    }
}

/// The places, among all changes, of the first one that is shown and of the one after the last:
/// the latest `shown`, `scroll` of them passed over.
pub open spec fn shown_range(count: int, scroll: int, shown: int) -> (int, int) {
    let end = if scroll < count {
        count - scroll
    } else {
        0
    };
    let start = if shown < end {
        end - shown
    } else {
        0
    };
    (start, end)
}

fn find_shown(count: usize, scroll: usize, shown: u64) -> (r: (usize, usize))
    ensures
        r.0 == shown_range(count as int, scroll as int, shown as int).0,
        r.1 == shown_range(count as int, scroll as int, shown as int).1,
        r.0 <= r.1 <= count,
{
    let end: usize = if scroll < count {
        count - scroll
    } else {
        0
    };
    let start: usize = if shown < end as u64 {
        end - shown as usize
    } else {
        0
    };
    (start, end)
}

/// A change that is shown, and where.
#[derive(Clone, Copy, PartialEq, Eq, Structural, Debug)]
pub struct ShownChange {
    pub id: u64,
    pub rect: ScreenRect,
}

/// The changes that are shown, with their places, oldest first.
pub open spec fn changes_placed(
    events: Seq<ChangeEvent>,
    scroll: int,
    width: Double,
    height: Double,
) -> Seq<ShownChange> {
    let shown = if changes_shown(width) >= 0 {
        changes_shown(width)
    } else {
        0
    };
    let (start, end) = shown_range(events.len() as int, scroll, shown);
    Seq::new(
        (end - start) as nat,
        |i: int| ShownChange { id: events[start + i].id, rect: change_area(i, height) },
    )
}

/// The changes that are shown, with their places, oldest first.
pub fn timeline_event_rects(
    timeline: &ChangeTimeline,
    scroll: usize,
    width: Double,
    height: Double,
) -> (r: Vec<ShownChange>)
    requires
        crate::screen::plain(width),
        crate::screen::plain(height),
        timeline@.len() <= MOST_SHEETS,
    ensures
        r@ == changes_placed(timeline@, scroll as int, width, height),
        forall|k: int| 0 <= k < r@.len() ==> (#[trigger] r@[k]).rect.wf() && r@[k].rect.within(
            0x2_0000,
        ),
{
    let events = timeline.events();
    let (start, end) = find_shown(events.len(), scroll, visible_changes(width));
    let mut r: Vec<ShownChange> = Vec::new();
    let mut i: usize = start;
    while i < end
        invariant
            start <= i <= end <= events@.len(),
            events@.len() <= MOST_SHEETS,
            crate::screen::plain(height),
            r@.len() == i - start,
            forall|k: int|
                0 <= k < r@.len() ==> #[trigger] r@[k] == (ShownChange {
                    id: events@[start + k].id,
                    rect: change_area(k, height),
                }),
            forall|k: int|
                0 <= k < r@.len() ==> (#[trigger] r@[k]).rect.wf() && r@[k].rect.within(0x2_0000),
        decreases end - i,
    {
        r.push(ShownChange { id: events[i].id, rect: change_rect(i - start, height) });
        i = i + 1;
    }
    proof {
        assert(r@ =~= changes_placed(timeline@, scroll as int, width, height));
    }
    r
}

/// The first change from the `i`-th shown on that a point meets.
pub open spec fn change_met(shown: Seq<ShownChange>, x: Double, y: Double, i: nat) -> Option<u64>
    decreases shown.len() - i,
{
    if i >= shown.len() {
        None
    } else if shown[i as int].rect.holds(x, y) {
        Some(shown[i as int].id)
    } else {
        change_met(shown, x, y, i + 1)
    }
}

/// The change at a point.
pub fn change_at(shown: &Vec<ShownChange>, x: Double, y: Double) -> (r: Option<u64>)
    requires
        forall|k: int| 0 <= k < shown@.len() ==> (#[trigger] shown@[k]).rect.wf(),
        x.wf(),
        y.wf(),
    ensures
        r == change_met(shown@, x, y, 0),
{
    let mut i: usize = 0;
    while i < shown.len()
        invariant
            i <= shown@.len(),
            forall|k: int| 0 <= k < shown@.len() ==> (#[trigger] shown@[k]).rect.wf(),
            x.wf(),
            y.wf(),
            change_met(shown@, x, y, 0) == change_met(shown@, x, y, i as nat),
        decreases shown@.len() - i,
    {
        if shown[i].rect.contains(x, y) {
            return Some(shown[i].id);
        }
        i = i + 1;
    }
    None
}

/// The height of a line of the panel of warnings.
pub open spec fn line_height(settings: ViewerSettings) -> Double {
    crate::screen::px(36).spec_product(
        crate::geometry::spec_lesser(settings.ui_scale, crate::double::spec_ratio(135, 100)),
    )
}

/// The height of a line of the panel of warnings.
pub fn find_line_height(settings: &ViewerSettings) -> (r: Double)
    requires
        settings.wf(),
    ensures
        r == line_height(*settings),
        r.wf(),
        r.within(0x1_1000),
        settings.ui_scale.mantissa != 0 ==> r.mantissa != 0,
{
    pixels(36).times(lesser(settings.ui_scale, ratio(135, 100)))
}

/// The room that the panel of warnings can move in: its least and greatest left and top, its
/// width and its height.
#[derive(Clone, Copy, PartialEq, Eq, Structural, Debug)]
pub struct PanelRoom {
    pub x_min: Double,
    pub x_max: Double,
    pub y_min: Double,
    pub y_max: Double,
    pub width: Double,
    pub height: Double,
}

/// How many warnings the panel lists.
pub open spec fn warnings_listed(count: int) -> int {
    if count < 4 {
        count
    } else {
        4
    }
}

/// How large the panel of warnings would be.
pub open spec fn wanted_size(settings: ViewerSettings, count: int) -> (Double, Double) {
    if settings.diagnostics_collapsed {
        (crate::screen::px(244), crate::screen::px(DIAGNOSTICS_HEADER_HEIGHT as int))
    } else {
        (
            crate::screen::px(DIAGNOSTICS_PANEL_WIDTH as int),
            crate::screen::px(46).spec_sum(
                crate::screen::px(warnings_listed(count)).spec_product(line_height(settings)),
            ),
        )
    }
}

fn find_size(settings: &ViewerSettings, count: usize) -> (r: (Double, Double))
    requires
        settings.wf(),
    ensures
        r == wanted_size(*settings, count as int),
        r.0.wf() && r.0.within(0x2_0000),
        r.1.wf() && r.1.within(0x2_0000),
{
    let listed: i64 = if count < 4 {
        count as i64
    } else {
        4
    };
    if settings.diagnostics_collapsed {
        (pixels(244), pixels(DIAGNOSTICS_HEADER_HEIGHT))
    } else {
        (
            pixels(DIAGNOSTICS_PANEL_WIDTH),
            pixels(46).plus(pixels(listed).times(find_line_height(settings))),
        )
    }
}

/// The right and the bottom of the room.
pub open spec fn room_end(width: Double, height: Double) -> (Double, Double) {
    (
        crate::geometry::spec_greater(
            width.spec_difference(crate::screen::px(14)),
            crate::screen::px(SIDEBAR_WIDTH + 15),
        ),
        crate::geometry::spec_greater(
            height.spec_difference(crate::screen::px(FILMSTRIP_HEIGHT as int)).spec_difference(
                crate::screen::px(8),
            ),
            crate::screen::px(STATUS_HEIGHT + 8 + DIAGNOSTICS_HEADER_HEIGHT),
        ),
    )
}

fn find_room_end(width: Double, height: Double) -> (r: (Double, Double))
    requires
        crate::screen::plain(width),
        crate::screen::plain(height),
    ensures
        r == room_end(width, height),
        r.0.wf() && r.0.within(0x2_0000),
        r.1.wf() && r.1.within(0x2_0000),
{
    (
        greater(width.minus(pixels(14)), pixels(SIDEBAR_WIDTH + 15)),
        greater(
            height.minus(pixels(FILMSTRIP_HEIGHT)).minus(pixels(8)),
            pixels(STATUS_HEIGHT + 8 + DIAGNOSTICS_HEADER_HEIGHT),
        ),
    )
}

/// The room that the panel of warnings can move in.
#[verifier::opaque]
pub open spec fn panel_room(width: Double, height: Double, settings: ViewerSettings, count: int) -> PanelRoom {
    let x_min = crate::screen::px(SIDEBAR_WIDTH + 14);
    let y_min = crate::screen::px(STATUS_HEIGHT + 8);
    let (right, bottom) = room_end(width, height);
    let (wanted_width, wanted_height) = wanted_size(settings, count);
    let panel_width = crate::geometry::spec_lesser(wanted_width, right.spec_difference(x_min));
    let panel_height = crate::geometry::spec_lesser(wanted_height, bottom.spec_difference(y_min));
    PanelRoom {
        x_min,
        x_max: crate::geometry::spec_greater(right.spec_difference(panel_width), x_min),
        y_min,
        y_max: crate::geometry::spec_greater(bottom.spec_difference(panel_height), y_min),
        width: panel_width,
        height: panel_height,
    }
}

fn find_room(width: Double, height: Double, settings: &ViewerSettings, count: usize) -> (r: PanelRoom)
    requires
        crate::screen::plain(width),
        crate::screen::plain(height),
        settings.wf(),
    ensures
        r == panel_room(width, height, *settings, count as int),
        r.x_min.wf() && r.x_min.within(0x3_0000),
        r.x_max.wf() && r.x_max.within(0x3_0000),
        r.y_min.wf() && r.y_min.within(0x3_0000),
        r.y_max.wf() && r.y_max.within(0x3_0000),
        r.width.wf() && r.width.within(0x3_0000),
        r.height.wf() && r.height.within(0x3_0000),
{
    proof {
        reveal(panel_room);
    }
    let x_min = pixels(SIDEBAR_WIDTH + 14);
    let y_min = pixels(STATUS_HEIGHT + 8);
    let (right, bottom) = find_room_end(width, height);
    let (wanted_width, wanted_height) = find_size(settings, count);
    let panel_width = lesser(wanted_width, right.minus(x_min));
    let panel_height = lesser(wanted_height, bottom.minus(y_min));
    PanelRoom {
        x_min,
        x_max: greater(right.minus(panel_width), x_min),
        y_min,
        y_max: greater(bottom.minus(panel_height), y_min),
        width: panel_width,
        height: panel_height,
    }
}

/// A position that was stored, or the given number of wholes.
pub open spec fn fraction_or(stored: Option<Double>, wholes: int) -> Double {
    match stored {
        Some(f) => f,
        None => crate::screen::px(wholes),
    }
}

/// At what part of its room the panel stands: folded up at the right, else at the left, until it
/// is moved.
pub open spec fn panel_fractions(settings: ViewerSettings) -> (Double, Double) {
    if settings.diagnostics_collapsed {
        (
            fraction_or(settings.diagnostics_collapsed_x, 1),
            fraction_or(settings.diagnostics_collapsed_y, 0),
        )
    } else {
        (fraction_or(settings.diagnostics_panel_x, 0), fraction_or(settings.diagnostics_panel_y, 0))
    }
}

/// The given part of the way from `low` to `high`.
pub open spec fn along(low: Double, high: Double, part: Double) -> Double {
    low.spec_sum(high.spec_difference(low).spec_product(part))
}

fn go_along(low: Double, high: Double, part: Double) -> (r: Double)
    requires
        low.wf() && low.within(0x3_0000),
        high.wf() && high.within(0x3_0000),
        crate::screen::plain(part),
    ensures
        r == along(low, high, part),
        r.wf(),
        r.within(0x6_0000),
{
    low.plus(high.minus(low).times(part))
}

/// Where the panel of warnings stands.
pub open spec fn panel_area(width: Double, height: Double, settings: ViewerSettings, count: int) -> ScreenRect {
    let room = panel_room(width, height, settings, count);
    let (fx, fy) = panel_fractions(settings);
    let x0 = along(room.x_min, room.x_max, fx);
    let y0 = along(room.y_min, room.y_max, fy);
    ScreenRect { x0, y0, x1: x0.spec_sum(room.width), y1: y0.spec_sum(room.height) }
}

fn fraction(stored: Option<Double>, wholes: i64) -> (r: Double)
    requires
        crate::viewer_settings::opt_wf(stored),
        0 <= wholes <= 1,
    ensures
        r == fraction_or(stored, wholes as int),
        crate::screen::plain(r),
{
    match stored {
        Some(f) => f,
        None => pixels(wholes),
    }
}

fn find_fractions(settings: &ViewerSettings) -> (r: (Double, Double))
    requires
        settings.wf(),
    ensures
        r == panel_fractions(*settings),
        crate::screen::plain(r.0),
        crate::screen::plain(r.1),
{
    if settings.diagnostics_collapsed {
        (
            fraction(settings.diagnostics_collapsed_x, 1),
            fraction(settings.diagnostics_collapsed_y, 0),
        )
    } else {
        (fraction(settings.diagnostics_panel_x, 0), fraction(settings.diagnostics_panel_y, 0))
    }
}

/// Where the panel of warnings stands: at the stored part of the room that it can move in.
pub fn diagnostics_panel_rect(width: Double, height: Double, settings: &ViewerSettings, count: usize) -> (r:
    ScreenRect)
    requires
        crate::screen::plain(width),
        crate::screen::plain(height),
        settings.wf(),
    ensures
        r == panel_area(width, height, *settings, count as int),
        r.wf(),
        r.within(0x8_0000),
{
    let room = find_room(width, height, settings, count);
    let (fx, fy) = find_fractions(settings);
    let x0 = go_along(room.x_min, room.x_max, fx);
    let y0 = go_along(room.y_min, room.y_max, fy);
    ScreenRect { x0, y0, x1: x0.plus(room.width), y1: y0.plus(room.height) }
}

/// The button in the head of the panel that folds it.
pub open spec fn fold_area(panel: ScreenRect) -> ScreenRect {
    ScreenRect {
        x0: panel.x1.spec_difference(crate::screen::px(32)),
        y0: panel.y0.spec_sum(crate::screen::px(7)),
        x1: panel.x1.spec_difference(crate::screen::px(8)),
        y1: panel.y0.spec_sum(crate::screen::px(31)),
    }
}

/// The button in the head of the panel that folds it.
pub fn diagnostics_collapse_rect(panel: ScreenRect) -> (r: ScreenRect)
    requires
        panel.wf(),
        panel.within(0x8_0000),
    ensures
        r == fold_area(panel),
        r.wf(),
        r.within(0x9_0000),
{
    ScreenRect {
        x0: panel.x1.minus(pixels(32)),
        y0: panel.y0.plus(pixels(7)),
        x1: panel.x1.minus(pixels(8)),
        y1: panel.y0.plus(pixels(31)),
    }
}

/// The part of the way from `low` to `high` that `at` lies at, in single precision.
pub open spec fn part_of_way(at: Double, low: Double, high: Double) -> Double {
    if low.spec_less(high) {
        at.spec_difference(low).spec_quotient(high.spec_difference(low)).spec_single()
    } else {
        crate::screen::px(0)
    }
}

/// The part of the way from `low` to `high` that `at` lies at.
pub fn find_part(at: Double, low: Double, high: Double) -> (r: Double)
    requires
        at.wf() && at.within(0x40_0000),
        low.wf() && low.within(0x40_0000),
        high.wf() && high.within(0x40_0000),
    ensures
        r == part_of_way(at, low, high),
        r.wf(),
        r.within(0x100_0000),
{
    if low.less(high) {
        let way = high.minus(low);
        proof {
            crate::double::difference_of_distinct(high, low);
        }
        at.minus(low).divided_by(way).single()
    } else {
        pixels(0)
    }
}

} // verus!
