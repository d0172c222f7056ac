//! The strip of sheets and the timeline under it, painted.

use crate::change_timeline::{ChangeEvent, ChangeOrigin, ChangeTimeline};
use crate::controls::{thumbnail_rect, timeline_event_rects, MOST_SHEETS};
use crate::double::{ratio, Double};
use crate::geometry::{lesser, Point};
use crate::icons::change_icon;
use crate::paint::{go, in_tenths, opaque, with_alpha, Canvas, Form, Outline, Paint};
use crate::readers::TextAlign;
use crate::screen::{
    filmstrip_rect, pixels, Page, ScreenRect, SIDEBAR_WIDTH, TIMELINE_HEIGHT,
};
use crate::text::{joined, joined3, to_decimal};
use crate::theme::{Color, Palette};
use crate::ui_text::{display_sheet_name, relative_time, truncate_ui};
use vstd::prelude::*;

verus! {

/// The colour of a change by where it came from.
pub open spec fn origin_color(origin: ChangeOrigin, palette: Palette) -> Color {
    match origin {
        ChangeOrigin::External => palette.bus,
        ChangeOrigin::Local => palette.accent,
        ChangeOrigin::Undo => palette.selection,
        ChangeOrigin::Redo => palette.junction,
    }
}

/// The colour of a change by where it came from.
pub fn find_origin_color(origin: ChangeOrigin, palette: Palette) -> (r: Color)
    ensures
        r == origin_color(origin, palette),
{
    match origin {
        ChangeOrigin::External => palette.bus,
        ChangeOrigin::Local => palette.accent,
        ChangeOrigin::Undo => palette.selection,
        ChangeOrigin::Redo => palette.junction,
    }
}

/// What is left of the way in, slower towards its end: the cube of what is left of the time.
pub open spec fn way_left(progress: Double) -> Double {
    let left = crate::screen::px(1).spec_difference(progress);
    left.spec_product(left).spec_product(left)
}

/// How far the way in has been gone.
pub open spec fn eased(progress: Double) -> Double {
    crate::screen::px(1).spec_difference(way_left(progress))
}

/// How far below its place a change stands that is still coming in.
pub open spec fn drop_of(progress: Double) -> Double {
    crate::screen::px(1).spec_difference(eased(progress)).spec_product(crate::screen::px(12))
}

/// How much the card of a change covers that is still coming in, in single precision.
pub open spec fn cover_of(progress: Double) -> Double {
    crate::double::spec_ratio(72, 100).spec_sum(
        eased(progress).spec_product(crate::double::spec_ratio(28, 100)),
    ).spec_single()
}

fn find_eased(progress: Double) -> (r: Double)
    requires
        progress.wf(),
        progress.within(2000),
    ensures
        r == eased(progress),
        r.wf(),
        r.within(10_000),
{
    let one = pixels(1);
    let left = one.minus(progress);
    one.minus(left.times(left).times(left))
}

fn find_drop(progress: Double) -> (r: Double)
    requires
        progress.wf(),
        progress.within(2000),
    ensures
        r == drop_of(progress),
        r.wf(),
        r.within(11_000),
{
    pixels(1).minus(find_eased(progress)).times(pixels(12))
}

fn find_cover(progress: Double) -> (r: Double)
    requires
        progress.wf(),
        progress.within(2000),
    ensures
        r == cover_of(progress),
{
    ratio(72, 100).plus(find_eased(progress).times(ratio(28, 100))).single()
}

/// Where the icon of a change stands on its card.
pub open spec fn change_icon_area(area: ScreenRect, drop: Double) -> ScreenRect {
    ScreenRect {
        x0: crate::paint::off(area.x0, 7),
        y0: crate::paint::off(area.y0, 7).spec_sum(drop),
        x1: crate::paint::off(area.x0, 29),
        y1: crate::paint::off(area.y1, -7).spec_sum(drop),
    }
}

/// The card of a change, without its words.
pub open spec fn change_card(
    marks: Seq<crate::paint::Painted>,
    event: ChangeEvent,
    area: ScreenRect,
    highlighted: bool,
    now: u64,
    palette: Palette,
) -> Seq<crate::paint::Painted> {
    let progress = event.spec_intro_progress(now);
    let drop = drop_of(progress);
    let color = origin_color(event.origin, palette);
    let place = change_icon_area(area, drop);
    crate::paint::plated(
        marks,
        Outline::Rounded(area.spec_lowered(drop), crate::screen::px(6)),
        Paint { color: palette.card, alpha: cover_of(progress) },
        crate::paint::tenths(
            if highlighted {
                25
            } else {
                10
            },
        ),
        crate::paint::solid(
            if highlighted {
                color
            } else {
                palette.card_border
            },
        ),
    ).push(
        crate::paint::filled(
            Outline::Rounded(place, crate::screen::px(5)),
            crate::paint::sheer(color, 14),
        ),
    ).push(
        crate::paint::pictured(
            crate::icons::icon_of_change(event.kind),
            place,
            crate::paint::solid(color),
        ),
    )
}

fn draw_change_card(
    canvas: &mut Canvas,
    event: &ChangeEvent,
    area: ScreenRect,
    highlighted: bool,
    now: u64,
    palette: Palette,
)
    requires
        area.wf(),
        area.within(0x2_0000),
    ensures
        final(canvas)@ == change_card(old(canvas)@, *event, area, highlighted, now, palette),
{
    let progress = event.intro_progress(now);
    let drop = find_drop(progress);
    let color = find_origin_color(event.origin, palette);
    let lowered = ScreenRect {
        x0: area.x0,
        y0: area.y0.plus(drop),
        x1: area.x1,
        y1: area.y1.plus(drop),
    };
    let width = in_tenths(
        if highlighted {
            25
        } else {
            10
        },
    );
    let edge = if highlighted {
        color
    } else {
        palette.card_border
    };
    canvas.plate(
        Outline::Rounded(lowered, pixels(6)),
        Paint { color: palette.card, alpha: find_cover(progress) },
        width,
        opaque(edge),
    );
    let place = ScreenRect {
        x0: go(area.x0, 7),
        y0: go(area.y0, 7).plus(drop),
        x1: go(area.x0, 29),
        y1: go(area.y1, -7).plus(drop),
    };
    canvas.fill(Outline::Rounded(place, pixels(5)), with_alpha(color, 14));
    canvas.icon(change_icon(event.kind), place, opaque(color));
}

/// A change on the timeline.
pub open spec fn change_painted(
    marks: Seq<crate::paint::Painted>,
    event: ChangeEvent,
    area: ScreenRect,
    highlighted: bool,
    now: u64,
    wall: u64,
    palette: Palette,
) -> Seq<crate::paint::Painted> {
    let drop = drop_of(event.spec_intro_progress(now));
    let x = crate::paint::off(area.x0, 35);
    change_card(marks, event, area, highlighted, now, palette).push(
        crate::paint::line(
            crate::ui_text::truncated(event.label@, 19),
            crate::screen::px(9),
            x,
            crate::paint::off(area.y0, 12).spec_sum(drop),
            crate::paint::solid(palette.text),
        ),
    ).push(
        crate::paint::line(
            event.origin.spec_label() + " · "@ + crate::ui_text::age(
                if wall >= event.recorded_at {
                    ((wall - event.recorded_at) / 1000) as nat
                } else {
                    0
                },
            ),
            crate::paint::tenths(75),
            x,
            crate::paint::off(area.y0, 27).spec_sum(drop),
            crate::paint::solid(origin_color(event.origin, palette)),
        ),
    )
}

fn draw_change(
    canvas: &mut Canvas,
    event: &ChangeEvent,
    area: ScreenRect,
    highlighted: bool,
    now: u64,
    wall: u64,
    palette: Palette,
)
    requires
        area.wf(),
        area.within(0x2_0000),
    ensures
        final(canvas)@ == change_painted(
            old(canvas)@,
            *event,
            area,
            highlighted,
            now,
            wall,
            palette,
        ),
{
    draw_change_card(canvas, event, area, highlighted, now, palette);
    let drop = find_drop(event.intro_progress(now));
    let x = go(area.x0, 35);
    let label = truncate_ui(event.label.as_str(), 19);
    let first = go(area.y0, 12).plus(drop);
    canvas.write_line(label.as_str(), pixels(9), x, first, opaque(palette.text));
    let told = joined3(
        event.origin.label(),
        " · ",
        relative_time(event.recorded_at, wall).as_str(),
    );
    let color = find_origin_color(event.origin, palette);
    let second = go(area.y0, 27).plus(drop);
    canvas.write_line(told.as_str(), in_tenths(75), x, second, opaque(color));
}

/// The first `n` of the changes that are shown.
pub open spec fn changes_painted(
    marks: Seq<crate::paint::Painted>,
    events: Seq<ChangeEvent>,
    shown: Seq<crate::controls::ShownChange>,
    highlighted: Option<u64>,
    now: u64,
    wall: u64,
    palette: Palette,
    n: nat,
) -> Seq<crate::paint::Painted>
    decreases n,
{
    if n == 0 {
        marks
    } else {
        let before = changes_painted(
            marks,
            events,
            shown,
            highlighted,
            now,
            wall,
            palette,
            (n - 1) as nat,
        );
        let s = shown[n - 1];
        match crate::change_timeline::event_from(events, s.id, 0) {
            Some(i) => change_painted(
                before,
                events[i],
                s.rect,
                highlighted == Some(s.id),
                now,
                wall,
                palette,
            ),
            None => before,
        }
    }
}

/// What the timeline says of what it shows.
pub open spec fn timeline_hint(count: nat, scroll: int) -> Seq<char> {
    if count == 0 {
        "Session history"@
    } else if scroll == 0 {
        "Newest · scroll"@
    } else {
        "Earlier · scroll"@
    }
}

/// The timeline without its changes.
pub open spec fn timeline_bar(
    marks: Seq<crate::paint::Painted>,
    width: Double,
    height: Double,
    count: nat,
    scroll: int,
    palette: Palette,
) -> Seq<crate::paint::Painted> {
    let y0 = crate::paint::off(height, -TIMELINE_HEIGHT);
    let bar = marks.push(
        crate::paint::filled(
            Outline::Rect(
                ScreenRect {
                    x0: crate::screen::px(SIDEBAR_WIDTH as int),
                    y0,
                    x1: width,
                    y1: height,
                },
            ),
            crate::paint::sheer(palette.toolbar, 98),
        ),
    ).push(
        crate::paint::line(
            "CHANGES · "@ + crate::text::decimal(count),
            crate::paint::tenths(95),
            crate::screen::px(SIDEBAR_WIDTH + 10),
            crate::paint::off(y0, 17),
            crate::paint::solid(palette.accent),
        ),
    ).push(
        crate::paint::line(
            timeline_hint(count, scroll),
            crate::screen::px(8),
            crate::screen::px(SIDEBAR_WIDTH + 10),
            crate::paint::off(y0, 34),
            crate::paint::sheer(palette.text, 75),
        ),
    );
    if count == 0 {
        bar.push(
            crate::paint::line(
                "No changes yet — edits and external updates appear here"@,
                crate::paint::tenths(95),
                crate::screen::px(SIDEBAR_WIDTH + 106),
                crate::paint::off(y0, 25),
                crate::paint::sheer(palette.text, 62),
            ),
        )
    } else {
        bar
    }
}

fn draw_timeline_bar(
    canvas: &mut Canvas,
    width: Double,
    height: Double,
    count: usize,
    scroll: usize,
    palette: Palette,
)
    requires
        crate::screen::plain(height),
    ensures
        final(canvas)@ == timeline_bar(
            old(canvas)@,
            width,
            height,
            count as nat,
            scroll as int,
            palette,
        ),
{
    let y0 = go(height, -TIMELINE_HEIGHT);
    let bar = ScreenRect { x0: pixels(SIDEBAR_WIDTH), y0, x1: width, y1: height };
    canvas.fill(Outline::Rect(bar), with_alpha(palette.toolbar, 98));
    let title = joined("CHANGES · ", to_decimal(count as u128).as_str());
    let left = pixels(SIDEBAR_WIDTH + 10);
    canvas.write_line(title.as_str(), in_tenths(95), left, go(y0, 17), opaque(palette.accent));
    let hint = if count == 0 {
        "Session history"
    } else if scroll == 0 {
        "Newest · scroll"
    } else {
        "Earlier · scroll"
    };
    canvas.write_line(hint, pixels(8), left, go(y0, 34), with_alpha(palette.text, 75));
    if count == 0 {
        canvas.write_line(
            "No changes yet — edits and external updates appear here",
            in_tenths(95),
            pixels(SIDEBAR_WIDTH + 106),
            go(y0, 25),
            with_alpha(palette.text, 62),
        );
    }
}

/// The timeline.
pub open spec fn timeline_painted(
    marks: Seq<crate::paint::Painted>,
    width: Double,
    height: Double,
    events: Seq<ChangeEvent>,
    scroll: int,
    highlighted: Option<u64>,
    now: u64,
    wall: u64,
    palette: Palette,
) -> Seq<crate::paint::Painted> {
    let shown = crate::controls::changes_placed(events, scroll, width, height);
    changes_painted(
        timeline_bar(marks, width, height, events.len(), scroll, palette),
        events,
        shown,
        highlighted,
        now,
        wall,
        palette,
        shown.len(),
    )
}

/// Paints the timeline. `now` is by the clock that never runs backwards, `wall` by that on the wall.
pub fn draw_timeline(
    canvas: &mut Canvas,
    width: Double,
    height: Double,
    timeline: &ChangeTimeline,
    scroll: usize,
    highlighted: Option<u64>,
    now: u64,
    wall: u64,
    palette: Palette,
)
    requires
        crate::screen::plain(width),
        crate::screen::plain(height),
        timeline@.len() <= MOST_SHEETS,
    ensures
        final(canvas)@ == timeline_painted(
            old(canvas)@,
            width,
            height,
            timeline@,
            scroll as int,
            highlighted,
            now,
            wall,
            palette,
        ),
{
    draw_timeline_bar(canvas, width, height, timeline.len(), scroll, palette);
    let ghost bar = canvas@;
    let shown = timeline_event_rects(timeline, scroll, width, height);
    let mut n: usize = 0;
    while n < shown.len()
        invariant
            n <= shown@.len(),
            forall|k: int|
                0 <= k < shown@.len() ==> (#[trigger] shown@[k]).rect.wf()
                    && shown@[k].rect.within(0x2_0000),
            canvas@ == changes_painted(
                bar,
                timeline@,
                shown@,
                highlighted,
                now,
                wall,
                palette,
                n as nat,
            ),
        decreases shown@.len() - n,
    {
        let s = shown[n];
        match timeline.event(s.id) {
            Some(event) => {
                let marked = highlighted == Some(s.id);
                draw_change(canvas, event, s.rect, marked, now, wall, palette);
            },
            None => {},
        }
        n = n + 1;
    }
}

/// A sheet as the strip shows it.
pub struct SheetCard {
    pub page: Page,
    pub name: String,
    pub depth: usize,
    /// All of the sheet is drawn.
    pub complete: bool,
}

/// The signs of how deep in the hierarchy a sheet stands.
pub open spec fn arrows(depth: nat) -> Seq<char>
    decreases depth,
{
    if depth == 0 {
        Seq::empty()
    } else {
        arrows((depth - 1) as nat) + "› "@
    }
}

/// A number with at least two digits.
pub open spec fn two_digits(n: nat) -> Seq<char> {
    if n < 10 {
        "0"@ + crate::text::decimal(n)
    } else {
        crate::text::decimal(n)
    }
}

/// The title of the card of a sheet.
pub open spec fn card_title(index: int, card: SheetCard) -> Seq<char> {
    crate::ui_text::truncated(
        two_digits((index + 1) as nat) + "  "@ + arrows(card.depth as nat)
            + crate::ui_text::sheet_title(card.name@),
        22,
    )
}

fn title_card(index: usize, card: &SheetCard) -> (r: String)
    requires
        index <= MOST_SHEETS,
    ensures
        r@ == card_title(index as int, *card),
{
    let number = to_decimal((index + 1) as u128);
    let mut r = if index + 1 < 10 {
        joined3("0", number.as_str(), "  ")
    } else {
        joined(number.as_str(), "  ")
    };
    let ghost head = r@;
    let mut hierarchy = String::new();
    assert(hierarchy@ =~= Seq::empty());
    let mut i: usize = 0;
    while i < card.depth
        invariant
            i <= card.depth,
            hierarchy@ == arrows(i as nat),
        decreases card.depth - i,
    {
        hierarchy.append("› ");
        i = i + 1;
    }
    r.append(hierarchy.as_str());
    r.append(display_sheet_name(card.name.as_str()).as_str());
    truncate_ui(r.as_str(), 22)
}

/// Where on its card a sheet is shown.
pub open spec fn preview_in(area: ScreenRect) -> ScreenRect {
    ScreenRect {
        x0: crate::paint::off(area.x0, 7),
        y0: crate::paint::off(area.y0, 7),
        x1: crate::paint::off(area.x1, -7),
        y1: crate::paint::off(area.y1, -29),
    }
}

/// How a sheet is shown on its card: as large as it fits, in the middle.
pub open spec fn preview_of(index: usize, area: ScreenRect, page: Page) -> Form {
    let preview = preview_in(area);
    let scale = crate::geometry::spec_lesser(
        preview.spec_width().spec_quotient(page.width),
        preview.spec_height().spec_quotient(page.height),
    );
    let (x, y) = preview.spec_center();
    Form::Sheet(
        index,
        scale,
        Point {
            x: x.spec_difference(
                page.width.spec_product(scale).spec_quotient(crate::screen::px(2)),
            ),
            y: y.spec_difference(
                page.height.spec_product(scale).spec_quotient(crate::screen::px(2)),
            ),
        },
    )
}

fn find_preview(index: usize, area: ScreenRect, page: Page) -> (r: Form)
    requires
        area.wf(),
        area.within(0x2_0000),
        page.wf(),
    ensures
        r == preview_of(index, area, page),
{
    let preview = ScreenRect {
        x0: go(area.x0, 7),
        y0: go(area.y0, 7),
        x1: go(area.x1, -7),
        y1: go(area.y1, -29),
    };
    assert(area.x0.within(0x2_0000) && area.y0.within(0x2_0000));
    assert(area.x1.within(0x2_0000) && area.y1.within(0x2_0000));
    let scale = lesser(
        preview.width().divided_by(page.width),
        preview.height().divided_by(page.height),
    );
    let (x, y) = preview.center();
    let two = pixels(2);
    Form::Sheet(
        index,
        scale,
        Point {
            x: x.minus(page.width.times(scale).divided_by(two)),
            y: y.minus(page.height.times(scale).divided_by(two)),
        },
    )
}

/// The card of a sheet.
pub open spec fn card_painted(
    marks: Seq<crate::paint::Painted>,
    index: usize,
    area: ScreenRect,
    card: SheetCard,
    active: bool,
    palette: Palette,
) -> Seq<crate::paint::Painted> {
    let shown = crate::paint::plated(
        marks,
        Outline::Rounded(area, crate::screen::px(6)),
        crate::paint::solid(palette.card),
        crate::screen::px(
            if active {
                3
            } else {
                1
            },
        ),
        crate::paint::solid(
            if active {
                palette.accent
            } else {
                palette.card_border
            },
        ),
    ).push(
        crate::paint::Painted {
            form: preview_of(index, area, card.page),
            paint: crate::paint::solid(palette.page),
            words: Seq::empty(),
        },
    ).push(
        crate::paint::line(
            card_title(index as int, card),
            crate::paint::tenths(105),
            crate::paint::off(area.x0, 7),
            crate::paint::off(area.y1, -14),
            crate::paint::solid(palette.text),
        ),
    );
    if card.complete {
        shown
    } else {
        shown.push(
            crate::paint::worded(
                "!"@,
                crate::screen::px(16),
                Point { x: crate::paint::off(area.x1, -14), y: crate::paint::off(area.y0, 15) },
                TextAlign::Center,
                crate::paint::solid(palette.selection),
            ),
        )
    }
}

fn draw_card(
    canvas: &mut Canvas,
    index: usize,
    area: ScreenRect,
    card: &SheetCard,
    active: bool,
    palette: Palette,
)
    requires
        index <= MOST_SHEETS,
        area.wf(),
        area.within(0x2_0000),
        card.page.wf(),
    ensures
        final(canvas)@ == card_painted(old(canvas)@, index, area, *card, active, palette),
{
    let width = pixels(
        if active {
            3
        } else {
            1
        },
    );
    let edge = if active {
        palette.accent
    } else {
        palette.card_border
    };
    canvas.plate(Outline::Rounded(area, pixels(6)), opaque(palette.card), width, opaque(edge));
    let none = String::new();
    assert(none@ =~= Seq::empty());
    canvas.add(find_preview(index, area, card.page), opaque(palette.page), none);
    let title = title_card(index, card);
    let x = go(area.x0, 7);
    let y = go(area.y1, -14);
    canvas.write_line(title.as_str(), in_tenths(105), x, y, opaque(palette.text));
    if !card.complete {
        let at = Point { x: go(area.x1, -14), y: go(area.y0, 15) };
        canvas.write("!", pixels(16), at, TextAlign::Center, opaque(palette.selection));
    }
}

/// The cards of the first `n` sheets, as far as they stand in the window.
pub open spec fn cards_painted(
    marks: Seq<crate::paint::Painted>,
    width: Double,
    height: Double,
    scroll: Double,
    cards: Seq<SheetCard>,
    active: int,
    palette: Palette,
    n: nat,
) -> Seq<crate::paint::Painted>
    decreases n,
{
    if n == 0 {
        marks
    } else {
        let before = cards_painted(
            marks,
            width,
            height,
            scroll,
            cards,
            active,
            palette,
            (n - 1) as nat,
        );
        let area = crate::controls::card_area(n - 1, height, scroll);
        if area.x1.spec_less(crate::screen::px(0)) || width.spec_less(area.x0) {
            before
        } else {
            card_painted(
                before,
                (n - 1) as usize,
                area,
                cards[n - 1],
                n - 1 == active,
                palette,
            )
        }
    }
}

/// Every page of the strip can be drawn on.
pub open spec fn cards_wf(cards: Seq<SheetCard>) -> bool {
    &&& cards.len() <= MOST_SHEETS
    &&& forall|i: int| 0 <= i < cards.len() ==> (#[trigger] cards[i]).page.wf()
}

/// The strip of sheets without the timeline.
pub open spec fn film_painted(
    marks: Seq<crate::paint::Painted>,
    width: Double,
    height: Double,
    scroll: Double,
    cards: Seq<SheetCard>,
    active: int,
    palette: Palette,
) -> Seq<crate::paint::Painted> {
    cards_painted(
        marks.push(
            crate::paint::filled(
                Outline::Rect(crate::screen::film_area(width, height)),
                crate::paint::solid(palette.filmstrip),
            ),
        ),
        width,
        height,
        scroll,
        cards,
        active,
        palette,
        cards.len(),
    )
}

/// Paints the strip of sheets without the timeline.
pub fn draw_filmstrip(
    canvas: &mut Canvas,
    width: Double,
    height: Double,
    scroll: Double,
    cards: &Vec<SheetCard>,
    active: usize,
    palette: Palette,
)
    requires
        crate::screen::plain(width),
        crate::screen::plain(height),
        crate::screen::plain(scroll),
        cards_wf(cards@),
    ensures
        final(canvas)@ == film_painted(
            old(canvas)@,
            width,
            height,
            scroll,
            cards@,
            active as int,
            palette,
        ),
{
    canvas.fill(Outline::Rect(filmstrip_rect(width, height)), opaque(palette.filmstrip));
    let ghost strip = canvas@;
    let mut i: usize = 0;
    while i < cards.len()
        invariant
            i <= cards@.len(),
            crate::screen::plain(width),
            crate::screen::plain(height),
            crate::screen::plain(scroll),
            cards_wf(cards@),
            canvas@ == cards_painted(
                strip,
                width,
                height,
                scroll,
                cards@,
                active as int,
                palette,
                i as nat,
            ),
        decreases cards@.len() - i,
    {
        let area = thumbnail_rect(i, height, scroll);
        if !area.x1.less(pixels(0)) && !width.less(area.x0) {
            draw_card(canvas, i, area, &cards[i], i == active, palette);
        }
        i = i + 1;
    }
}

} // verus!
