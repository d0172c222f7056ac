//! Where the pointer, the wheel and the wish to see a change lead, numbers that are read back, and
//! how the drawing by the other program ends.

use crate::double::Double;
use crate::geometry::Bounds;
use crate::geometry::Point;
use crate::scene_builder::SceneObject;
use crate::svg_cache::ExportStep;
use crate::text_select::SelectableText;
use vstd::prelude::*;

verus! {

/// An export has a drawing in the end exactly if it was kept already, or if the sheets and what
/// belongs to them were copied, the other program drew them, and its drawing was read and kept.
pub proof fn exports_end_with_a_drawing(outcomes: Seq<bool>)
    requires
        outcomes.len() >= 7,
    ensures
        crate::svg_cache::step_reached(outcomes, 7) == ExportStep::Done(
            outcomes[0] || (outcomes[1] && outcomes[2] && outcomes[3] && outcomes[4]
                && outcomes[6]),
        ),
{
    reveal_with_fuel(crate::svg_cache::step_reached, 8);
}

proof fn lemma_met(places: Seq<Double>, x: Double, i: nat)
    ensures
        match crate::text_select::character_met(places, x, i) {
            Some(k) => {
                &&& i <= k < places.len() - 1
                &&& x.spec_less(middle_of(places, k))
                &&& forall|j: int| i <= j < k ==> !x.spec_less(#[trigger] middle_of(places, j))
            },
            None => forall|j: int|
                i <= j < places.len() - 1 ==> !x.spec_less(#[trigger] middle_of(places, j)),
        },
    decreases places.len() - i,
{
    if i + 1 < places.len() && !x.spec_less(middle_of(places, i as int)) {
        lemma_met(places, x, i + 1);
    }
}

/// The middle of a character, by the places where it and the next one begin.
pub open spec fn middle_of(places: Seq<Double>, i: int) -> Double {
    places[i].spec_sum(places[i + 1]).spec_quotient(crate::screen::px(2))
}

/// The pointer lies before a character exactly if it lies left of the middle of that character and of
/// no character before. Right of all of them, it lies behind the text; a text that is taken as a
/// whole is taken to its end.
pub proof fn the_pointer_lies_between_characters(target: SelectableText, x: Double)
    requires
        target.character_x@.len() == target.text@.len() + 1,
    ensures
        ({
            let at = target.met(x);
            let places = target.character_x@;
            &&& 0 <= at <= target.text@.len()
            &&& target.select_whole ==> at == target.text@.len()
            &&& !target.select_whole ==> forall|j: int|
                0 <= j < at ==> !x.spec_less(#[trigger] middle_of(places, j))
            &&& !target.select_whole && at < target.text@.len() ==> x.spec_less(
                middle_of(places, at),
            )
        }),
{
    lemma_met(target.character_x@, x, 0);
}

/// A text is set from the point on, up to it, or half to either side, as it is aligned.
pub proof fn texts_are_aligned(size: Double, at: Point, width: Double)
    ensures
        crate::text_select::text_area(size, at, crate::readers::TextAlign::Left, width).x0
            == at.x.spec_difference(crate::screen::px(0)),
        crate::text_select::text_area(size, at, crate::readers::TextAlign::Center, width).x0
            == at.x.spec_difference(width.spec_quotient(crate::screen::px(2))),
        crate::text_select::text_area(size, at, crate::readers::TextAlign::Right, width).x0
            == at.x.spec_difference(width),
{
}

/// The strip of sheets is never moved beyond its first sheet, nor beyond its last; a strip that fits
/// the window does not move at all.
pub proof fn the_strip_stays_in_sight(scroll: Double, amount: Double, count: int, width: Double)
    requires
        ({
            let over = crate::screen::px(
                count * crate::controls::CARD_PITCH + crate::screen::THUMBNAIL_GAP,
            ).spec_difference(width);
            over.wf() && scroll.spec_difference(amount).wf() && crate::screen::px(0).wf()
        }),
    ensures
        ({
            let over = crate::screen::px(
                count * crate::controls::CARD_PITCH + crate::screen::THUMBNAIL_GAP,
            ).spec_difference(width);
            let zero = crate::screen::px(0);
            let moved = crate::controls::film_moved(scroll, amount, count, width);
            &&& !moved.spec_less(zero)
            &&& !over.spec_less(zero) ==> !over.spec_less(moved)
            &&& !zero.spec_less(over) ==> moved == zero
            &&& !scroll.spec_difference(amount).spec_less(zero) && !over.spec_less(
                scroll.spec_difference(amount),
            ) ==> moved == scroll.spec_difference(amount)
        }),
{
    let over = crate::screen::px(
        count * crate::controls::CARD_PITCH + crate::screen::THUMBNAIL_GAP,
    ).spec_difference(width);
    let zero = crate::screen::px(0);
    let wanted = scroll.spec_difference(amount);
    crate::double::less_is_total(zero, zero, zero);
    crate::double::less_is_total(over, zero, wanted);
    crate::double::less_is_total(zero, over, wanted);
    crate::double::less_is_total(wanted, zero, over);
    crate::double::less_is_total(wanted, over, zero);
    crate::double::less_is_total(over, over, over);
    crate::double::less_is_total(zero, wanted, over);
    crate::double::less_is_total(over, wanted, zero);
}

/// The numeral of a number, read back, gives the number.
pub proof fn numerals_are_read_back(n: nat, most: nat)
    requires
        n <= most,
    ensures
        crate::launch::whole_of(crate::text::decimal(n), most) == Some(n),
        n <= u32::MAX ==> crate::attachment::unsigned(crate::text::decimal(n)) == Some(n),
{
    lemma_value(n);
    lemma_first(n);
}

proof fn lemma_first(n: nat)
    ensures
        crate::text::decimal(n).len() > 0,
        '0' <= crate::text::decimal(n)[0] <= '9',
    decreases n,
{
    if n >= 10 {
        lemma_first(n / 10);
    }
}

proof fn lemma_value(n: nat)
    ensures
        crate::attachment::value(crate::text::decimal(n)) == Some(n),
    decreases n,
{
    let s = crate::text::decimal(n);
    if n >= 10 {
        lemma_value(n / 10);
        assert(s.drop_last() =~= crate::text::decimal(n / 10));
    } else {
        assert(s.drop_last() =~= Seq::<char>::empty());
        reveal_with_fuel(crate::attachment::value, 2);
    }
    assert(s.last() as int - 48 == n % 10);
}

proof fn lemma_changed(objects: Seq<SceneObject>, uuids: Seq<Seq<char>>, n: nat)
    requires
        n <= objects.len(),
        forall|i: int| 0 <= i < objects.len() ==> crate::measuring::is_box(
            (#[trigger] objects[i]).bounds,
        ),
    ensures
        match crate::viewer::changed_box(objects, uuids, n) {
            Some(b) => crate::measuring::is_box(b) && forall|i: int|
                0 <= i < n && uuids.contains((#[trigger] objects[i]).uuid@) ==> b.encloses(
                    objects[i].bounds,
                ),
            None => forall|i: int|
                0 <= i < n ==> !uuids.contains((#[trigger] objects[i]).uuid@),
        },
    decreases n,
{
    if n > 0 {
        lemma_changed(objects, uuids, (n - 1) as nat);
        let last = objects[n - 1].bounds;
        assert(crate::measuring::is_box(last));
        lemma_enclosed(last, last);
        if let Some(b) = crate::viewer::changed_box(objects, uuids, (n - 1) as nat) {
            lemma_round_both(b, last);
            let all = crate::screen::round_both(b, last);
            assert forall|i: int|
                0 <= i < n && uuids.contains((#[trigger] objects[i]).uuid@) && uuids.contains(
                    objects[n - 1].uuid@,
                ) implies all.encloses(objects[i].bounds) by {
                if i < n - 1 {
                    assert(crate::measuring::is_box(objects[i].bounds));
                    lemma_through(all, b, objects[i].bounds);
                }
            }
        }
    }
}

proof fn lemma_enclosed(a: Bounds, b: Bounds)
    requires
        crate::measuring::is_box(a),
        a == b,
    ensures
        a.encloses(b),
{
    crate::double::less_is_total(a.min_x, a.min_x, a.min_x);
    crate::double::less_is_total(a.min_y, a.min_y, a.min_y);
    crate::double::less_is_total(a.max_x, a.max_x, a.max_x);
    crate::double::less_is_total(a.max_y, a.max_y, a.max_y);
}

proof fn lemma_through(a: Bounds, b: Bounds, c: Bounds)
    requires
        crate::measuring::is_box(a),
        crate::measuring::is_box(b),
        crate::measuring::is_box(c),
        a.encloses(b),
        b.encloses(c),
    ensures
        a.encloses(c),
{
    crate::double::less_is_total(c.min_x, b.min_x, a.min_x);
    crate::double::less_is_total(c.min_y, b.min_y, a.min_y);
    crate::double::less_is_total(a.max_x, b.max_x, c.max_x);
    crate::double::less_is_total(a.max_y, b.max_y, c.max_y);
}

proof fn lemma_round_both(a: Bounds, b: Bounds)
    requires
        crate::measuring::is_box(a),
        crate::measuring::is_box(b),
    ensures
        crate::measuring::is_box(crate::screen::round_both(a, b)),
        crate::screen::round_both(a, b).encloses(a),
        crate::screen::round_both(a, b).encloses(b),
{
    let all = crate::screen::round_both(a, b);
    crate::double::less_is_total(a.min_x, b.min_x, a.min_x);
    crate::double::less_is_total(b.min_x, a.min_x, b.min_x);
    crate::double::less_is_total(a.min_y, b.min_y, a.min_y);
    crate::double::less_is_total(b.min_y, a.min_y, b.min_y);
    crate::double::less_is_total(a.max_x, b.max_x, a.max_x);
    crate::double::less_is_total(b.max_x, a.max_x, b.max_x);
    crate::double::less_is_total(a.max_y, b.max_y, a.max_y);
    crate::double::less_is_total(b.max_y, a.max_y, b.max_y);
    lemma_enclosed(a, a);
    lemma_enclosed(b, b);
    crate::double::less_is_total(all.max_x, a.max_x, a.min_x);
    crate::double::less_is_total(all.max_x, a.min_x, all.min_x);
    crate::double::less_is_total(all.max_y, a.max_y, a.min_y);
    crate::double::less_is_total(all.max_y, a.min_y, all.min_y);
}

/// The view follows a change to a box that holds every object that was changed. There is no such box
/// exactly if none of the objects was changed.
pub proof fn changes_are_followed_as_a_whole(
    objects: Seq<SceneObject>,
    uuids: Seq<Seq<char>>,
    i: int,
)
    requires
        forall|k: int| 0 <= k < objects.len() ==> crate::measuring::is_box(
            (#[trigger] objects[k]).bounds,
        ),
        0 <= i < objects.len(),
        uuids.contains(objects[i].uuid@),
    ensures
        crate::viewer::changed_box(objects, uuids, objects.len()) matches Some(b) && b.encloses(
            objects[i].bounds,
        ),
{
    lemma_changed(objects, uuids, objects.len());
}

/// Staging gives one document its new text and leaves every other as it is. What a document was
/// based on when it was first staged stays what it is based on.
pub proof fn staging_changes_one_document(
    staged: Map<Seq<char>, crate::edit_session::Staged>,
    key: Seq<char>,
    file: Seq<char>,
    current: Seq<char>,
    replacement: Seq<char>,
    other: Seq<char>,
)
    ensures
        ({
            let after = crate::edit_session::replaced(staged, key, file, current, replacement);
            &&& after.contains_key(key) && after[key].staged == replacement
            &&& staged.contains_key(key) ==> after[key].base == staged[key].base
                && after[key].file == staged[key].file
            &&& !staged.contains_key(key) ==> after[key].base == Some(current) && after[key].file
                == file
            &&& other != key ==> (after.contains_key(other) <==> staged.contains_key(other))
            &&& other != key && staged.contains_key(other) ==> after[other] == staged[other]
        }),
{
}

proof fn lemma_grid(grid: Double, i: nat, k: int)
    requires
        i <= k < 5,
        crate::toolbar::is_grid_step(grid, k),
        forall|j: int| i <= j < k ==> !#[trigger] crate::toolbar::is_grid_step(grid, j),
    ensures
        crate::toolbar::grid_place(grid, i) == k,
    decreases k - i,
{
    if i < k {
        assert(!crate::toolbar::is_grid_step(grid, i as int));
        lemma_grid(grid, i + 1, k);
    }
}

/// The grids come in turn: each step leads to the next coarser one and the last to the first. The
/// second step is twice the first, the fourth twice the third, and the fifth twice the fourth.
pub proof fn grids_come_in_turn(grid: Double, k: int)
    requires
        0 <= k < 5,
        crate::toolbar::is_grid_step(grid, k),
        forall|j: int| 0 <= j < k ==> !#[trigger] crate::toolbar::is_grid_step(grid, j),
    ensures
        k < 4 ==> crate::toolbar::next_grid(grid) == crate::toolbar::grid_step(k + 1),
        k == 4 ==> crate::toolbar::next_grid(grid) == crate::toolbar::grid_step(0),
        forall|j: int|
            j == 0 || j == 2 || j == 3 ==> (#[trigger] crate::toolbar::grid_step(j)).mantissa
                == crate::toolbar::grid_step(j + 1).mantissa && crate::toolbar::grid_step(
                j + 1,
            ).exponent == crate::toolbar::grid_step(j).exponent + 1,
{
    lemma_grid(grid, 0, k);
}

proof fn lemma_scale(scale: Double, i: nat, k: int)
    requires
        i <= k < 5,
        crate::viewer_settings::is_step(scale, crate::viewer_settings::scale_step(k)),
        forall|j: int|
            i <= j < k ==> !crate::viewer_settings::is_step(
                scale,
                #[trigger] crate::viewer_settings::scale_step(j),
            ),
    ensures
        crate::viewer_settings::step_from(scale, i) == k,
    decreases k - i,
{
    if i < k {
        assert(!crate::viewer_settings::is_step(
            scale,
            crate::viewer_settings::scale_step(i as int),
        ));
        lemma_scale(scale, i + 1, k);
    }
}

/// The sizes of the interface come in turn: each leads to the next larger one, and the largest to the
/// smallest.
pub proof fn interface_sizes_come_in_turn(settings: crate::viewer_settings::ViewerSettings, k: int)
    requires
        0 <= k < 5,
        crate::viewer_settings::is_step(
            settings.ui_scale,
            crate::viewer_settings::scale_step(k),
        ),
        forall|j: int|
            0 <= j < k ==> !crate::viewer_settings::is_step(
                settings.ui_scale,
                #[trigger] crate::viewer_settings::scale_step(j),
            ),
    ensures
        k < 4 ==> settings.spec_next_scale() == crate::viewer_settings::scale_step(k + 1),
        k == 4 ==> settings.spec_next_scale() == crate::viewer_settings::scale_step(0),
{
    lemma_scale(settings.ui_scale, 0, k);
}

/// A page is shown between a tenth and forty times its fitting size, and as large as is asked for
/// where that lies between them.
pub proof fn zoom_stays_in_range(zoom: Double)
    ensures
        ({
            let least = crate::double::spec_ratio(1, 10);
            let most = crate::screen::px(40);
            let shown = crate::screen::allowed_zoom(zoom);
            &&& zoom.spec_less(least) ==> shown == least
            &&& !zoom.spec_less(least) && most.spec_less(zoom) ==> shown == most
            &&& !zoom.spec_less(least) && !most.spec_less(zoom) ==> shown == zoom
        }),
{
}

/// A new sheet lies on the page: it keeps a tenth of an inch from the left or the upper edge, and
/// where the page is large enough for it, it does not reach over the other one.
pub proof fn new_sheets_lie_on_the_page(v: Double, page: Double, size: int)
    requires
        v.wf(),
        page.spec_difference(crate::double::spec_ratio(size, 100)).wf(),
        crate::double::spec_ratio(254, 100).wf(),
    ensures
        ({
            let at = crate::dialogs::moved_in(v, page, size);
            let margin = crate::double::spec_ratio(254, 100);
            let most = page.spec_difference(crate::double::spec_ratio(size, 100));
            &&& !at.spec_less(margin)
            &&& !most.spec_less(margin) ==> !most.spec_less(at)
            &&& !v.spec_less(margin) && !most.spec_less(v) ==> at == v
        }),
{
    let margin = crate::double::spec_ratio(254, 100);
    let most = page.spec_difference(crate::double::spec_ratio(size, 100));
    crate::double::less_is_total(margin, margin, margin);
    crate::double::less_is_total(most, most, most);
    crate::double::less_is_total(most, margin, v);
    crate::double::less_is_total(margin, most, v);
    crate::double::less_is_total(v, margin, most);
    crate::double::less_is_total(v, most, margin);
    crate::double::less_is_total(most, v, margin);
}

/// A dialog is left by Escape and accepted by Enter, and by nothing else. The text in it changes only
/// by what is typed.
pub proof fn keys_end_dialogs(key: crate::input::Pressed, editing: bool, text: Seq<char>)
    ensures
        ({
            let t = crate::input::typing(key, editing);
            &&& t == crate::input::Typing::Cancel <==> key is Escape
            &&& t == crate::input::Typing::Accept <==> key is Enter
            &&& t == crate::input::Typing::Turn <==> key is Tab
            &&& crate::input::text_after(text, key, editing) != text ==> t
                == crate::input::Typing::Typed
            &&& crate::dialogs::in_one_field(t) != crate::input::Typing::Turn
            &&& t != crate::input::Typing::Turn ==> crate::dialogs::in_one_field(t) == t
        }),
{
}

/// Moving the panel of warnings moves it as it is, open or folded; where it lies the other way stays
/// as it was, and so do all other settings.
pub proof fn panels_remember_two_places(
    width: Double,
    height: Double,
    settings: crate::viewer_settings::ViewerSettings,
    count: int,
    at: Point,
    hold: Point,
)
    ensures
        ({
            let after = crate::pointer::panel_moved(width, height, settings, count, at, hold);
            &&& settings.diagnostics_collapsed ==> after.diagnostics_panel_x
                == settings.diagnostics_panel_x && after.diagnostics_panel_y
                == settings.diagnostics_panel_y && after.diagnostics_collapsed_x is Some
                && after.diagnostics_collapsed_y is Some
            &&& !settings.diagnostics_collapsed ==> after.diagnostics_collapsed_x
                == settings.diagnostics_collapsed_x && after.diagnostics_collapsed_y
                == settings.diagnostics_collapsed_y && after.diagnostics_panel_x is Some
                && after.diagnostics_panel_y is Some
            &&& after.diagnostics_collapsed == settings.diagnostics_collapsed
            &&& after.ui_scale == settings.ui_scale
            &&& after.dark_theme == settings.dark_theme
        }),
{
}

/// The outline of a sheet begins where the sheet stands and is as wide and as high as it says.
pub proof fn sheets_are_as_large_as_they_say(
    sheets: Seq<crate::sexp::Sexp>,
    uuid: Seq<char>,
    i: int,
    at: Point,
    size: Point,
)
    requires
        0 <= i < sheets.len(),
        sheets[i].first_text("uuid"@) == Some(uuid),
        sheets[i].at_point() == Some(at),
        sheets[i].tag_point("size"@) == Some(size),
        forall|j: int| 0 <= j < i ==> (#[trigger] sheets[j]).first_text("uuid"@) != Some(uuid),
    ensures
        crate::sheet_facts::outline_from(sheets, uuid, 0) matches Some(rect) && rect.left == at.x
            && rect.top == at.y && rect.right == at.x.spec_sum(size.x) && rect.bottom
            == at.y.spec_sum(size.y),
{
    lemma_outline(sheets, uuid, 0, i);
}

proof fn lemma_outline(sheets: Seq<crate::sexp::Sexp>, uuid: Seq<char>, from: nat, i: int)
    requires
        from <= i < sheets.len(),
        sheets[i].first_text("uuid"@) == Some(uuid),
        crate::sheet_facts::outline_of(sheets[i]) is Some,
        forall|j: int| from <= j < i ==> (#[trigger] sheets[j]).first_text("uuid"@) != Some(uuid),
    ensures
        crate::sheet_facts::outline_from(sheets, uuid, from) == crate::sheet_facts::outline_of(
            sheets[i],
        ),
    decreases i - from,
{
    if from < i {
        assert(sheets[from as int].first_text("uuid"@) != Some(uuid));
        lemma_outline(sheets, uuid, from + 1, i);
    }
}

/// A change is told of only where it is wanted: not while something is dragged, nor where changes are
/// not to be highlighted; and it is the change that is asked for.
pub proof fn changes_are_pointed_out_where_wanted(
    events: Seq<crate::change_timeline::ChangeEvent>,
    id: Option<u64>,
    dragging: bool,
    on: bool,
)
    ensures
        ({
            let i = crate::frame::pointed_out(events, id, dragging, on);
            &&& dragging || !on || id is None ==> i is None
            &&& i matches Some(k) ==> 0 <= k < events.len() && id == Some(events[k].id)
            &&& !dragging && on && id is Some && i is None ==> forall|k: int|
                0 <= k < events.len() ==> Some((#[trigger] events[k]).id) != id
        }),
{
    if let Some(x) = id {
        lemma_pointed(events, x, 0);
    }
}

proof fn lemma_pointed(events: Seq<crate::change_timeline::ChangeEvent>, id: u64, from: nat)
    ensures
        match crate::change_timeline::event_from(events, id, from) {
            Some(k) => from <= k < events.len() && events[k].id == id,
            None => forall|k: int| from <= k < events.len() ==> (#[trigger] events[k]).id != id,
        },
    decreases events.len() - from,
{
    if from < events.len() && events[from as int].id != id {
        lemma_pointed(events, id, from + 1);
    }
}

/// A selection can be moved exactly if there is one and everything in it is on the sheet.
pub proof fn selections_that_are_present_can_be_moved(
    selection: crate::selection::Selection,
    objects: Seq<SceneObject>,
)
    ensures
        selection.spec_movable(objects) <==> selection@.len() > 0 && forall|uuid: Seq<char>|
            selection@.contains(uuid) ==> exists|i: int|
                0 <= i < objects.len() && (#[trigger] objects[i]).uuid@ == uuid,
{
    if selection@.len() > 0 && forall|uuid: Seq<char>|
        selection@.contains(uuid) ==> exists|i: int|
            0 <= i < objects.len() && (#[trigger] objects[i]).uuid@ == uuid {
        assert forall|uuid: Seq<char>| #[trigger]
            selection@.contains(uuid) implies crate::selection::names_object(objects, uuid) by {}
    }
    if selection.spec_movable(objects) {
        assert forall|uuid: Seq<char>| selection@.contains(uuid) implies exists|i: int|
            0 <= i < objects.len() && (#[trigger] objects[i]).uuid@ == uuid by {
            assert(crate::selection::names_object(objects, uuid));
        }
    }
}

} // verus!
