//! What keys, presses and the wheel do: what each asks for, and what only it asks for.

use crate::controls::ShownChange;
use crate::controls::ToolbarAction;
use crate::double::Double;
use crate::geometry::Point;
use crate::input::Dialog;
use crate::input::InputState;
use crate::input::KeyAction;
use crate::input::Modifiers;
use crate::input::Pressed;
use crate::pointer::PanelHit;
use crate::pointer::PointerState;
use crate::pointer::Turn;
use crate::screen::Page;
use vstd::prelude::*;

verus! {

/// No dialog is open.
pub open spec fn is_undisturbed(s: InputState) -> bool {
    !s.sheet_pin && !s.sheet && !s.label && !s.property && !s.search
}

/// The key is a letter, small or capital.
pub open spec fn types(key: Pressed, small: char, capital: char) -> bool {
    key matches Pressed::Text(text) && text.len() == 1 && (text[0] == small || text[0] == capital)
}

/// A command key is held.
pub open spec fn commands(m: Modifiers) -> bool {
    m.control || m.command
}

proof fn lemma_letter(text: Seq<char>, small: char, capital: char)
    requires
        'a' <= small <= 'z',
        capital as int == small as int - 32,
    ensures
        crate::input::is_letter(text, small) <==> text.len() == 1 && (text[0] == small || text[0]
            == capital),
{
    if text.len() == 1 {
        let c = text[0];
        if 'A' <= c <= 'Z' {
            assert((c as u8 + 32) as char as int == c as int + 32);
        }
    }
}

proof fn lemma_letters(text: Seq<char>)
    ensures
        crate::input::is_letter(text, 'z') <==> text.len() == 1 && (text[0] == 'z' || text[0]
            == 'Z'),
        crate::input::is_letter(text, 'y') <==> text.len() == 1 && (text[0] == 'y' || text[0]
            == 'Y'),
        crate::input::is_letter(text, 'f') <==> text.len() == 1 && (text[0] == 'f' || text[0]
            == 'F'),
        crate::input::is_letter(text, 'd') <==> text.len() == 1 && (text[0] == 'd' || text[0]
            == 'D'),
        crate::input::is_letter(text, 't') <==> text.len() == 1 && (text[0] == 't' || text[0]
            == 'T'),
        crate::input::is_letter(text, 'g') <==> text.len() == 1 && (text[0] == 'g' || text[0]
            == 'G'),
        crate::input::is_letter(text, 's') <==> text.len() == 1 && (text[0] == 's' || text[0]
            == 'S'),
        crate::input::is_letter(text, 'e') <==> text.len() == 1 && (text[0] == 'e' || text[0]
            == 'E'),
        crate::input::is_letter(text, 'w') <==> text.len() == 1 && (text[0] == 'w' || text[0]
            == 'W'),
        crate::input::is_letter(text, 'j') <==> text.len() == 1 && (text[0] == 'j' || text[0]
            == 'J'),
        crate::input::is_letter(text, 'q') <==> text.len() == 1 && (text[0] == 'q' || text[0]
            == 'Q'),
        crate::input::is_letter(text, 'l') <==> text.len() == 1 && (text[0] == 'l' || text[0]
            == 'L'),
        crate::input::is_letter(text, 'b') <==> text.len() == 1 && (text[0] == 'b' || text[0]
            == 'B'),
        crate::input::is_letter(text, 'h') <==> text.len() == 1 && (text[0] == 'h' || text[0]
            == 'H'),
        crate::input::is_letter(text, 'p') <==> text.len() == 1 && (text[0] == 'p' || text[0]
            == 'P'),
        crate::input::is_letter(text, 'r') <==> text.len() == 1 && (text[0] == 'r' || text[0]
            == 'R'),
        crate::input::is_letter(text, 'x') <==> text.len() == 1 && (text[0] == 'x' || text[0]
            == 'X'),
        crate::input::is_letter(text, 'c') <==> text.len() == 1 && (text[0] == 'c' || text[0]
            == 'C'),
        text == seq!['+'] <==> text.len() == 1 && text[0] == '+',
        text == seq!['='] <==> text.len() == 1 && text[0] == '=',
        text == seq!['-'] <==> text.len() == 1 && text[0] == '-',
        text == seq!['0'] <==> text.len() == 1 && text[0] == '0',
{
    lemma_letter(text, 'z', 'Z');
    lemma_letter(text, 'y', 'Y');
    lemma_letter(text, 'f', 'F');
    lemma_letter(text, 'd', 'D');
    lemma_letter(text, 't', 'T');
    lemma_letter(text, 'g', 'G');
    lemma_letter(text, 's', 'S');
    lemma_letter(text, 'e', 'E');
    lemma_letter(text, 'w', 'W');
    lemma_letter(text, 'j', 'J');
    lemma_letter(text, 'q', 'Q');
    lemma_letter(text, 'l', 'L');
    lemma_letter(text, 'b', 'B');
    lemma_letter(text, 'h', 'H');
    lemma_letter(text, 'p', 'P');
    lemma_letter(text, 'r', 'R');
    lemma_letter(text, 'x', 'X');
    lemma_letter(text, 'c', 'C');
    if text.len() == 1 {
        assert(text =~= seq![text[0]]);
        assert(seq!['+'][0] == '+' && seq!['='][0] == '=' && seq!['-'][0] == '-' && seq!['0'][0]
            == '0');
    }
}

/// A change is taken back by the command letter Z alone, and made again by it with Shift or by the
/// command letter Y. Nothing else asks for either.
pub proof fn z_undoes_and_y_redoes(key: Pressed, m: Modifiers, s: InputState)
    ensures
        crate::input::key_action(key, m, s) == KeyAction::Undo <==> is_undisturbed(s) && commands(m)
            && !m.shift && types(key, 'z', 'Z'),
        crate::input::key_action(key, m, s) == KeyAction::Redo <==> is_undisturbed(s) && commands(m)
            && ((m.shift && types(key, 'z', 'Z')) || types(key, 'y', 'Y')),
{
    if let Pressed::Text(text) = key {
        lemma_letters(text);
    }
}

/// What is selected is deleted by the key for it alone, copied by the command letter D, and what is
/// staged is written by the command key Enter.
pub proof fn edits_are_asked_for(key: Pressed, m: Modifiers, s: InputState)
    ensures
        crate::input::key_action(key, m, s) == KeyAction::Delete <==> is_undisturbed(s) && key
            == Pressed::Delete,
        crate::input::key_action(key, m, s) == KeyAction::Duplicate <==> is_undisturbed(s)
            && commands(m) && types(key, 'd', 'D'),
        crate::input::key_action(key, m, s) == KeyAction::Commit <==> is_undisturbed(s) && commands(
            m,
        ) && key == Pressed::Enter,
        crate::input::key_action(key, m, s) == KeyAction::Search <==> is_undisturbed(s) && commands(
            m,
        ) && types(key, 'f', 'F'),
        crate::input::key_action(key, m, s) == KeyAction::CopyText <==> s.text_selection
            && commands(m) && types(key, 'c', 'C'),
{
    if let Pressed::Text(text) = key {
        lemma_letters(text);
    }
}

/// With a command key the arrows move what is selected one step of the grid in their direction, and
/// nothing else moves it.
pub proof fn arrows_nudge_in_their_direction(key: Pressed, m: Modifiers, s: InputState, x: i8, y: i8)
    ensures
        crate::input::key_action(key, m, s) == KeyAction::Nudge(x, y) <==> is_undisturbed(s)
            && commands(m) && {
            ||| key == Pressed::ArrowLeft && x == -1 && y == 0
            ||| key == Pressed::ArrowRight && x == 1 && y == 0
            ||| key == Pressed::ArrowUp && x == 0 && y == -1
            ||| key == Pressed::ArrowDown && x == 0 && y == 1
        },
{
    if let Pressed::Text(text) = key {
        lemma_letters(text);
    }
}

/// Escape ends one thing at a time: a selection of text, then the summary of a change, then the wire
/// that is drawn, and only where there is none of these what is selected.
pub proof fn escape_ends_one_thing(m: Modifiers, s: InputState)
    requires
        is_undisturbed(s),
    ensures
        ({
            let does = crate::input::key_action(Pressed::Escape, m, s);
            let text = s.text_selection || s.text_select_mode;
            &&& does == KeyAction::LeaveTextSelection <==> text
            &&& does == KeyAction::DismissPreview <==> !text && s.external_preview
            &&& does == KeyAction::CancelWire <==> !text && !s.external_preview && s.wire_draft
            &&& does == KeyAction::ClearSelection <==> !text && !s.external_preview
                && !s.wire_draft
        }),
{
}

/// While a wire is drawn no letter places anything else.
pub proof fn wires_are_drawn_alone(key: Pressed, m: Modifiers, s: InputState)
    requires
        s.wire_draft,
    ensures
        ({
            let does = crate::input::key_action(key, m, s);
            &&& does != KeyAction::PlaceJunction
            &&& does != KeyAction::PlaceNoConnect
            &&& does != KeyAction::PlaceBusEntry
            &&& does != KeyAction::StartLabel
            &&& does != KeyAction::StartSheet
            &&& does != KeyAction::StartSheetPin
        }),
{
}

/// The letters that place items, without a command key and while no wire is drawn.
pub proof fn letters_place_items(key: Pressed, m: Modifiers, s: InputState)
    requires
        is_undisturbed(s),
        !commands(m),
        !s.wire_draft,
    ensures
        ({
            let does = crate::input::key_action(key, m, s);
            &&& does == KeyAction::StartWire(false) <==> types(key, 'w', 'W') && !m.shift
            &&& does == KeyAction::StartWire(true) <==> types(key, 'w', 'W') && m.shift
            &&& does == KeyAction::PlaceJunction <==> types(key, 'j', 'J')
            &&& does == KeyAction::PlaceNoConnect <==> types(key, 'q', 'Q')
            &&& does == KeyAction::StartLabel <==> types(key, 'l', 'L')
            &&& does == KeyAction::PlaceBusEntry <==> types(key, 'b', 'B') && !m.shift
            &&& does == KeyAction::TurnBusEntry <==> types(key, 'b', 'B') && m.shift
            &&& does == KeyAction::StartSheet <==> types(key, 'h', 'H')
            &&& does == KeyAction::StartSheetPin <==> types(key, 'p', 'P')
            &&& does == KeyAction::MirrorX <==> types(key, 'x', 'X')
            &&& does == KeyAction::MirrorY <==> types(key, 'y', 'Y')
            &&& does == KeyAction::EditProperty <==> types(key, 'e', 'E')
            &&& does == KeyAction::ToggleTheme <==> types(key, 't', 'T')
            &&& does == KeyAction::CycleGrid <==> types(key, 'g', 'G')
            &&& does == KeyAction::ToggleSnap <==> types(key, 's', 'S')
            &&& does == KeyAction::ZoomIn <==> types(key, '+', '=')
            &&& does == KeyAction::ZoomOut <==> types(key, '-', '-')
        }),
{
    if let Pressed::Text(text) = key {
        lemma_letters(text);
    }
}

/// A key that a dialog takes changes its text by one character at most, and in the dialog that is in
/// front: the one for a pin before that for a sheet, then those for a label, a property and a search.
pub proof fn the_front_dialog_takes_keys(s: InputState)
    ensures
        ({
            let front = crate::input::open_dialog(s);
            &&& front == Some(Dialog::SheetPin) <==> s.sheet_pin
            &&& front == Some(Dialog::Sheet) <==> s.sheet && !s.sheet_pin
            &&& front == Some(Dialog::Label) <==> s.label && !s.sheet && !s.sheet_pin
            &&& front == Some(Dialog::Property) <==> s.property && !s.label && !s.sheet
                && !s.sheet_pin
            &&& front == Some(Dialog::Search) <==> s.search && !s.property && !s.label && !s.sheet
                && !s.sheet_pin
        }),
{
}

/// A point lies in a rectangle or on its edge.
pub open spec fn is_inside(r: crate::screen::ScreenRect, x: Double, y: Double) -> bool {
    !x.spec_less(r.x0) && !r.x1.spec_less(x) && !y.spec_less(r.y0) && !r.y1.spec_less(y)
}

/// The page is pressed only where nothing lies over it: no control, no tool and no panel, while no
/// text is selected and no wire is drawn.
pub proof fn the_page_is_pressed_last(
    s: PointerState,
    events: Seq<crate::change_timeline::ChangeEvent>,
)
    ensures
        ({
            let does = crate::pointer::press_meaning(s, events);
            let control = crate::controls::control_met(s.width, s.x, s.y) is Some;
            let tool = crate::controls::tool_met(s.x, s.y, 0) is Some;
            let panel = crate::pointer::panel_hit(
                s.width,
                s.height,
                s.settings,
                s.warnings as int,
                s.x,
                s.y,
            ) != PanelHit::Outside;
            let film = is_inside(crate::screen::film_area(s.width, s.height), s.x, s.y);
            let page = is_inside(crate::screen::main_area(s.width, s.height), s.x, s.y);
            let over = control || tool || panel;
            &&& does is Control <==> control
            &&& does is Tool <==> tool && !control
            &&& does is Panel <==> panel && !tool && !control
            &&& does is Text <==> s.text_select_mode && !over
            &&& does is Wire <==> s.wire_draft && !s.text_select_mode && !over
            &&& (does is Film || does is Timeline) <==> film && !s.wire_draft && !s.text_select_mode
                && !over
            &&& does is Page <==> page && !film && !s.wire_draft && !s.text_select_mode && !over
        }),
{
}

/// A press over the strip of sheets means the timeline in its lowest part and a card above it.
pub proof fn the_timeline_lies_below_the_cards(
    s: PointerState,
    events: Seq<crate::change_timeline::ChangeEvent>,
)
    ensures
        crate::pointer::press_meaning(s, events) is Timeline ==> !s.y.spec_less(
            s.height.spec_difference(crate::screen::px(50)),
        ),
        crate::pointer::press_meaning(s, events) is Film ==> s.y.spec_less(
            s.height.spec_difference(crate::screen::px(50)),
        ),
{
}

proof fn lemma_tool(x: Double, y: Double, from: nat, i: int)
    requires
        from <= i < 12,
        is_inside(crate::controls::tool_area(i), x, y),
        forall|j: int|
            0 <= j < i ==> !is_inside(#[trigger] crate::controls::tool_area(j), x, y),
    ensures
        crate::controls::tool_met(x, y, from) == Some(crate::controls::tool_of(i)),
    decreases i - from,
{
    if from < i {
        assert(!is_inside(crate::controls::tool_area(from as int), x, y));
        lemma_tool(x, y, from + 1, i);
    }
}

/// A press on a tool uses that tool, whichever of the twelve it is.
pub proof fn pressed_tools_are_used(x: Double, y: Double, i: int)
    requires
        0 <= i < 12,
        is_inside(crate::controls::tool_area(i), x, y),
        forall|j: int|
            0 <= j < i ==> !is_inside(#[trigger] crate::controls::tool_area(j), x, y),
    ensures
        crate::controls::tool_met(x, y, 0) == Some(crate::controls::tool_of(i)),
{
    lemma_tool(x, y, 0, i);
}

/// Every tool stands in the bar.
pub proof fn every_tool_stands_in_the_bar(tool: ToolbarAction)
    ensures
        exists|i: int| 0 <= i < 12 && #[trigger] crate::controls::tool_of(i) == tool,
{
    assert(crate::controls::tool_of(0) == ToolbarAction::Undo);
    assert(crate::controls::tool_of(1) == ToolbarAction::Redo);
    assert(crate::controls::tool_of(2) == ToolbarAction::ZoomIn);
    assert(crate::controls::tool_of(3) == ToolbarAction::ZoomOut);
    assert(crate::controls::tool_of(4) == ToolbarAction::Fit);
    assert(crate::controls::tool_of(5) == ToolbarAction::Grid);
    assert(crate::controls::tool_of(6) == ToolbarAction::Snap);
    assert(crate::controls::tool_of(7) == ToolbarAction::UiScale);
    assert(crate::controls::tool_of(8) == ToolbarAction::HighlightChanges);
    assert(crate::controls::tool_of(9) == ToolbarAction::FollowChanges);
    assert(crate::controls::tool_of(10) == ToolbarAction::TextSelect);
    assert(crate::controls::tool_of(11) == ToolbarAction::Theme);
}

proof fn lemma_card(
    count: nat,
    height: Double,
    scroll: Double,
    x: Double,
    y: Double,
    from: nat,
)
    requires
        from <= count <= usize::MAX,
        forall|j: int|
            0 <= j < from ==> !is_inside(
                #[trigger] crate::controls::card_area(j, height, scroll),
                x,
                y,
            ),
    ensures
        match crate::controls::card_met(count, height, scroll, x, y, from) {
            Some(i) => i < count && is_inside(
                crate::controls::card_area(i as int, height, scroll),
                x,
                y,
            ) && forall|j: int|
                0 <= j < i ==> !is_inside(
                    #[trigger] crate::controls::card_area(j, height, scroll),
                    x,
                    y,
                ),
            None => forall|j: int|
                0 <= j < count ==> !is_inside(
                    #[trigger] crate::controls::card_area(j, height, scroll),
                    x,
                    y,
                ),
        },
    decreases count - from,
{
    if from < count {
        if !is_inside(crate::controls::card_area(from as int, height, scroll), x, y) {
            lemma_card(count, height, scroll, x, y, from + 1);
        }
    }
}

/// A press on the card of a sheet turns to that sheet, the first one whose card lies there.
pub proof fn pressed_cards_turn_to_their_sheet(
    count: nat,
    height: Double,
    scroll: Double,
    x: Double,
    y: Double,
)
    requires
        count <= usize::MAX,
    ensures
        match crate::controls::card_met(count, height, scroll, x, y, 0) {
            Some(i) => i < count && is_inside(
                crate::controls::card_area(i as int, height, scroll),
                x,
                y,
            ) && forall|j: int|
                0 <= j < i ==> !is_inside(
                    #[trigger] crate::controls::card_area(j, height, scroll),
                    x,
                    y,
                ),
            None => forall|j: int|
                0 <= j < count ==> !is_inside(
                    #[trigger] crate::controls::card_area(j, height, scroll),
                    x,
                    y,
                ),
        },
{
    lemma_card(count, height, scroll, x, y, 0);
}

/// Of two turns of the wheel the larger one counts, to whichever side it goes.
pub proof fn the_larger_turn_counts(x: Double, y: Double)
    requires
        x.wf(),
        y.wf(),
    ensures
        ({
            let turn = crate::pointer::larger_turn(x, y);
            &&& turn == x || turn == y
            &&& !turn.spec_abs().spec_less(x.spec_abs())
            &&& !turn.spec_abs().spec_less(y.spec_abs())
        }),
{
    crate::double::less_is_total(x.spec_abs(), y.spec_abs(), x.spec_abs());
    crate::double::less_is_total(y.spec_abs(), x.spec_abs(), y.spec_abs());
}

/// The wheel enlarges the page exactly where it is not over the strip of sheets, and there moves the
/// timeline in the lowest part of the strip and its cards above.
pub proof fn the_wheel_moves_what_it_is_over(
    width: Double,
    height: Double,
    x: Double,
    y: Double,
    turn: Turn,
)
    ensures
        ({
            let does = crate::pointer::wheel_meaning(width, height, x, y, turn);
            let over = is_inside(crate::screen::film_area(width, height), x, y);
            let low = !y.spec_less(height.spec_difference(crate::screen::px(50)));
            &&& does is Zoom <==> !over
            &&& does is Timeline <==> over && low
            &&& does is Film <==> over && !low
        }),
{
}

/// The latest changes are shown first, as many as there is room for; each change that is passed over
/// shows the one before, and all of them can be reached.
pub proof fn the_latest_changes_are_shown(count: int, scroll: int, shown: int)
    requires
        0 <= scroll,
        0 <= count,
        0 < shown,
    ensures
        ({
            let (start, end) = crate::controls::shown_range(count, scroll, shown);
            &&& 0 <= start <= end <= count
            &&& scroll == 0 ==> end == count
            &&& end - start <= shown
            &&& count <= shown && scroll == 0 ==> start == 0
            &&& scroll < count ==> end == count - scroll
            &&& scroll + shown <= count ==> end - start == shown
            &&& scroll + shown == count ==> start == 0
        }),
{
}

/// A turn of the wheel over the timeline passes over one change more or less, never past the first
/// change nor the last.
pub proof fn the_timeline_moves_step_by_step(scroll: int, amount: Double, count: int, shown: int)
    requires
        amount.wf(),
        0 <= shown,
        0 <= count,
        0 <= scroll && (scroll == 0 || scroll + shown <= count),
    ensures
        ({
            let moved = crate::controls::timeline_moved(scroll, amount, count, shown);
            &&& 0 <= moved && (moved == 0 || moved + shown <= count)
            &&& !amount.negative && amount.mantissa != 0 && scroll + shown < count ==> moved
                == scroll + 1
            &&& amount.negative && scroll > 0 ==> moved == scroll - 1
            &&& amount.mantissa == 0 ==> moved == scroll
        }),
{
    let zero = crate::screen::px(0);
    assert(zero == Double { negative: false, mantissa: 0, exponent: 0 });
    crate::double::lemma_order(zero, amount);
    crate::double::lemma_order(amount, zero);
}

proof fn lemma_change(shown: Seq<ShownChange>, x: Double, y: Double, from: nat)
    requires
        from <= shown.len(),
        forall|j: int| 0 <= j < from ==> !is_inside((#[trigger] shown[j]).rect, x, y),
    ensures
        match crate::controls::change_met(shown, x, y, from) {
            Some(id) => exists|i: int|
                0 <= i < shown.len() && (#[trigger] shown[i]).id == id && is_inside(
                    shown[i].rect,
                    x,
                    y,
                ),
            None => forall|j: int|
                0 <= j < shown.len() ==> !is_inside((#[trigger] shown[j]).rect, x, y),
        },
    decreases shown.len() - from,
{
    if from < shown.len() {
        if !is_inside(shown[from as int].rect, x, y) {
            lemma_change(shown, x, y, from + 1);
        } else {
            assert(shown[from as int].id == shown[from as int].id);
        }
    }
}

/// A press on a change of the timeline shows that change, and a press between them shows none.
pub proof fn pressed_changes_are_shown(shown: Seq<ShownChange>, x: Double, y: Double)
    ensures
        match crate::controls::change_met(shown, x, y, 0) {
            Some(id) => exists|i: int|
                0 <= i < shown.len() && (#[trigger] shown[i]).id == id && is_inside(
                    shown[i].rect,
                    x,
                    y,
                ),
            None => forall|j: int|
                0 <= j < shown.len() ==> !is_inside((#[trigger] shown[j]).rect, x, y),
        },
{
    lemma_change(shown, x, y, 0);
}

proof fn lemma_signs(a: Double, b: Double, c: Double)
    ensures
        a.spec_difference(b).negative == a.spec_less(b),
        a.spec_product(c).negative == (a.negative != c.negative && a.mantissa != 0 && c.mantissa
            != 0),
{
    reveal(Double::spec_difference);
    reveal(Double::spec_product);
    assert(a.mantissa * c.mantissa > 0 <==> a.mantissa != 0 && c.mantissa != 0) by (nonlinear_arith)
        requires
            a.mantissa >= 0,
            c.mantissa >= 0,
    ;
}

/// To bring a point of the page to the middle of the window, the page is moved to the right where the
/// point lies left of the middle of the page, and to the left where it lies right of it; and likewise
/// down and up.
pub proof fn the_page_moves_towards_the_middle(
    width: Double,
    height: Double,
    page: Page,
    zoom: Double,
    target: Point,
)
    requires
        !crate::screen::fit_scale(width, height, page).spec_product(zoom).negative,
        crate::screen::fit_scale(width, height, page).spec_product(zoom).mantissa != 0,
        target.x.wf(),
        target.y.wf(),
        page.width.spec_quotient(crate::screen::px(2)).wf(),
        page.height.spec_quotient(crate::screen::px(2)).wf(),
    ensures
        ({
            let camera = crate::screen::centered_on(width, height, page, zoom, target);
            let middle_x = page.width.spec_quotient(crate::screen::px(2));
            let middle_y = page.height.spec_quotient(crate::screen::px(2));
            &&& camera.zoom == zoom
            &&& camera.pan_x.negative <==> middle_x.spec_less(target.x)
            &&& camera.pan_y.negative <==> middle_y.spec_less(target.y)
        }),
{
    let scale = crate::screen::fit_scale(width, height, page).spec_product(zoom);
    let middle_x = page.width.spec_quotient(crate::screen::px(2));
    let middle_y = page.height.spec_quotient(crate::screen::px(2));
    lemma_signs(middle_x, target.x, scale);
    lemma_signs(middle_y, target.y, scale);
    lemma_signs(middle_x.spec_difference(target.x), target.x, scale);
    lemma_signs(middle_y.spec_difference(target.y), target.y, scale);
    if middle_x.spec_less(target.x) {
        crate::double::difference_of_distinct(middle_x, target.x);
    }
    if middle_y.spec_less(target.y) {
        crate::double::difference_of_distinct(middle_y, target.y);
    }
}

/// The point of the page under a point of the window lies further right where that does.
pub proof fn points_under_the_pointer_keep_their_side(
    t: crate::screen::PageTransform,
    x: Double,
    y: Double,
)
    requires
        !t.scale.negative,
        t.scale.mantissa != 0,
    ensures
        crate::screen::point_under(t, x, y).x.negative ==> x.spec_less(t.x),
        crate::screen::point_under(t, x, y).y.negative ==> y.spec_less(t.y),
{
    reveal(Double::spec_quotient);
    lemma_signs(x, t.x, t.scale);
    lemma_signs(y, t.y, t.scale);
}

/// A drag to the right moves what is dragged to the right, and one downwards moves it down.
pub proof fn drags_move_the_way_they_go(from: Double, to: Double, scale: Double)
    requires
        from.wf(),
        to.wf(),
        !crate::geometry::spec_greater(scale, crate::geometry::least_scale()).negative,
    ensures
        crate::geometry::in_mm(from, to, scale).negative ==> to.spec_less(from),
{
    reveal(Double::spec_quotient);
    lemma_signs(to, from, scale);
}

} // verus!
