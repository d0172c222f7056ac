//! What the viewer keeps of changes and sheets, and what it says when a change cannot be begun.

use crate::change_timeline::{ChangeOrigin, ChangeTimeline};
use crate::double::Double;
use crate::edit_session::EditSession;
use crate::editor_history::{GroupFailure, HistoryStep};
use crate::geometry::Bounds;
use crate::scene::ObjectKind;
use crate::scene_builder::SceneObject;
use crate::screen::{pixels, union_bounds};
use crate::selection::{find_object, Selection};
use crate::text::{has_name, joined, joined3, same, to_decimal};
use vstd::prelude::*;

verus! {

/// What the timeline points at.
#[derive(Clone, Copy, PartialEq, Eq, Structural, Debug)]
pub struct Pointing {
    /// The change that is pointed out on its sheet.
    pub highlighted: Option<u64>,
    /// The change whose sheet is gone to with the next frame.
    pub follow: Option<u64>,
    /// How many of the latest changes are passed over.
    pub scroll: usize,
}

/// Records a change: the timeline shows its end again, and the change is pointed out where changes
/// are.
pub fn record_change(
    timeline: &mut ChangeTimeline,
    pointing: &mut Pointing,
    highlight: bool,
    origin: ChangeOrigin,
    label: String,
    file: String,
    uuids: &Vec<String>,
    wall: u64,
    now: u64,
) -> (id: u64)
    ensures
        id == crate::change_timeline::id_after(old(timeline).last_id()),
        final(timeline).last_id() == id,
        final(timeline)@.len() == old(timeline)@.len() + 1,
        final(timeline)@.drop_last() == old(timeline)@,
        ({
            let event = final(timeline)@.last();
            &&& event.id == id
            &&& event.origin == origin
            &&& event.kind == crate::change_timeline::kind_of(origin, label@)
            &&& event.label@ == label@
            &&& event.file@ == file@
            &&& crate::text::is_sorted_set(
                crate::text::views(event.uuids@),
                crate::text::views(uuids@),
            )
            &&& event.recorded_at == wall
            &&& event.introduced_at == now
        }),
        *final(pointing) == (Pointing {
            highlighted: if highlight {
                Some(id)
            } else {
                old(pointing).highlighted
            },
            follow: old(pointing).follow,
            scroll: 0,
        }),
{
    let id = timeline.push(origin, label, file, uuids, wall, now);
    pointing.scroll = 0;
    if highlight {
        pointing.highlighted = Some(id);
    }
    id
}

/// Goes to a change of the timeline, where there is such a change, and says so.
pub fn navigate_to_change(
    timeline: &ChangeTimeline,
    pointing: &mut Pointing,
    highlight: bool,
    id: u64,
) -> (r: Option<String>)
    ensures
        match crate::change_timeline::event_from(timeline@, id, 0) {
            None => r is None && *final(pointing) == *old(pointing),
            Some(_) => (r matches Some(said) && said@ == "Navigating to timeline change"@)
                && *final(pointing) == (Pointing {
                highlighted: if highlight {
                    Some(id)
                } else {
                    None
                },
                follow: Some(id),
                scroll: old(pointing).scroll,
            }),
        },
{
    match timeline.event(id) {
        None => None,
        Some(_) => {
            pointing.highlighted = if highlight {
                Some(id)
            } else {
                None
            };
            pointing.follow = Some(id);
            Some("Navigating to timeline change".to_owned())
        },
    }
}

/// The box round those of the first `n` objects that are named.
pub open spec fn changed_box(objects: Seq<SceneObject>, uuids: Seq<Seq<char>>, n: nat) -> Option<
    Bounds,
>
    decreases n,
{
    if n == 0 {
        None
    } else {
        let before = changed_box(objects, uuids, (n - 1) as nat);
        let object = objects[n - 1];
        if uuids.contains(object.uuid@) {
            match before {
                Some(b) => Some(crate::screen::round_both(b, object.bounds)),
                None => Some(object.bounds),
            }
        } else {
            before
        }
    }
}

/// The box round the objects that a change names, where any of them is there.
pub fn find_changed(objects: &Vec<SceneObject>, uuids: &Vec<String>) -> (r: Option<Bounds>)
    requires
        forall|i: int| 0 <= i < objects@.len() ==> (#[trigger] objects@[i]).wf(),
    ensures
        r == changed_box(objects@, crate::text::views(uuids@), objects@.len()),
        r matches Some(b) ==> b.wf(),
{
    let mut found: Option<Bounds> = None;
    let mut i: usize = 0;
    while i < objects.len()
        invariant
            i <= objects@.len(),
            forall|k: int| 0 <= k < objects@.len() ==> (#[trigger] objects@[k]).wf(),
            found == changed_box(objects@, crate::text::views(uuids@), i as nat),
            found matches Some(b) ==> b.wf(),
        decreases objects@.len() - i,
    {
        let object = &objects[i];
        if has_name(uuids, object.uuid.as_str()) {
            found = match found {
                Some(b) => Some(union_bounds(b, object.bounds)),
                None => Some(object.bounds),
            };
        }
        i = i + 1;
    }
    found
}

/// Another sheet is turned to: there is one of that number, and it is not shown already.
pub fn turns_to(index: usize, active: usize, count: usize) -> (r: bool)
    ensures
        r == (index < count && index != active),
{
    index < count && index != active
}

/// What comes of a drag when it ends.
pub enum DragEnd {
    /// The pointer has hardly moved.
    Nothing,
    /// The grid has taken the drag back.
    SnappedBack,
    Move(Double, Double),
}

/// A move that is none.
pub open spec fn is_still(d: Double) -> bool {
    d.spec_abs().spec_less(crate::double::spec_ratio(1, 1_000_000_000))
}

/// What comes of a drag over a distance of pixels when it ends.
pub fn finish_item_drag(distance: Double, delta: Option<(Double, Double)>) -> (r: DragEnd)
    requires
        distance.wf(),
        delta matches Some(d) ==> d.0.wf() && d.1.wf(),
    ensures
        r == (match delta {
            Some((dx, dy)) if !distance.spec_less(crate::screen::px(2)) => if is_still(dx)
                && is_still(dy) {
                DragEnd::SnappedBack
            } else {
                DragEnd::Move(dx, dy)
            },
            _ => DragEnd::Nothing,
        }),
{
    if distance.less(pixels(2)) {
        return DragEnd::Nothing;
    }
    match delta {
        Some((dx, dy)) => {
            let near = crate::double::ratio(1, 1_000_000_000);
            if dx.abs().less(near) && dy.abs().less(near) {
                DragEnd::SnappedBack
            } else {
                DragEnd::Move(dx, dy)
            }
        },
        None => DragEnd::Nothing,
    }
}

/// What is said of a drag that the grid has taken back.
pub fn snapped_back_status() -> (r: String)
    ensures
        r@ == "Drag snapped back to the original position"@,
{
    "Drag snapped back to the original position".to_owned()
}

/// The ranges of primitives of those of the first `n` objects that are named by either list.
pub open spec fn ranges_of(
    objects: Seq<SceneObject>,
    selected: Seq<Seq<char>>,
    wires: Seq<Seq<char>>,
    n: nat,
) -> Seq<(usize, usize)>
    decreases n,
{
    if n == 0 {
        Seq::empty()
    } else {
        let before = ranges_of(objects, selected, wires, (n - 1) as nat);
        let object = objects[n - 1];
        if selected.contains(object.uuid@) || wires.contains(object.uuid@) {
            before.push((object.first, object.end))
        } else {
            before
        }
    }
}

/// The ranges of primitives that a drag takes out of the page: those of what is selected and of the
/// wires that follow it.
pub fn start_item_drag(objects: &Vec<SceneObject>, selection: &Selection, wires: &Vec<String>) -> (r:
    Vec<(usize, usize)>)
    ensures
        r@ == ranges_of(
            objects@,
            crate::text::views(selection.uuids@),
            crate::text::views(wires@),
            objects@.len(),
        ),
{
    let mut r: Vec<(usize, usize)> = Vec::new();
    let mut i: usize = 0;
    proof {
        assert(r@ =~= Seq::<(usize, usize)>::empty());
    }
    while i < objects.len()
        invariant
            i <= objects@.len(),
            r@ == ranges_of(
                objects@,
                crate::text::views(selection.uuids@),
                crate::text::views(wires@),
                i as nat,
            ),
        decreases objects@.len() - i,
    {
        let object = &objects[i];
        if has_name(&selection.uuids, object.uuid.as_str()) || has_name(
            wires,
            object.uuid.as_str(),
        ) {
            r.push((object.first, object.end));
        }
        i = i + 1;
    }
    r
}

/// Why a change of what is selected is not begun.
#[derive(Clone, Copy, PartialEq, Eq, Structural, Debug)]
pub enum Refusal {
    ReadOnly,
    NothingToMove,
    Gone,
    NothingToDelete,
    NotOne,
    NotASymbol,
    /// Changes are staged that a reload would lose.
    Staged,
}

impl Refusal {
    pub open spec fn spec_text(self) -> Seq<char> {
        match self {
            Refusal::ReadOnly => "Read-only · enable Edit mode before changing the schematic"@,
            Refusal::NothingToMove => "Select a symbol before using Ctrl/Command + Arrow"@,
            Refusal::Gone => "Part of the selection is no longer present; reloading"@,
            Refusal::NothingToDelete => "Select one or more items to stage for deletion"@,
            Refusal::NotOne => "Select exactly one symbol to duplicate"@,
            Refusal::NotASymbol => "Duplicate currently supports placed symbols"@,
            Refusal::Staged => "Reload blocked · Commit or Discard staged changes first"@,
        }
    }

    /// What is said of it.
    pub fn text(self) -> (r: String)
        ensures
            r@ == self.spec_text(),
    {
        match self {
            Refusal::ReadOnly =>
                "Read-only · enable Edit mode before changing the schematic".to_owned(),
            Refusal::NothingToMove =>
                "Select a symbol before using Ctrl/Command + Arrow".to_owned(),
            Refusal::Gone => "Part of the selection is no longer present; reloading".to_owned(),
            Refusal::NothingToDelete =>
                "Select one or more items to stage for deletion".to_owned(),
            Refusal::NotOne => "Select exactly one symbol to duplicate".to_owned(),
            Refusal::NotASymbol => "Duplicate currently supports placed symbols".to_owned(),
            Refusal::Staged => "Reload blocked · Commit or Discard staged changes first".to_owned(),
        }
    }
}

/// Whether the sheets can be read anew: nothing is staged.
pub fn check_reload(session: &EditSession) -> (r: Result<(), Refusal>)
    requires
        session.wf(),
    ensures
        r == (if session.dirty().len() > 0 {
            Err::<(), Refusal>(Refusal::Staged)
        } else {
            Ok::<(), Refusal>(())
        }),
{
    if session.has_pending() {
        Err(Refusal::Staged)
    } else {
        Ok(())
    }
}

/// All that is selected is on the sheet.
pub open spec fn all_present(selection: Selection, objects: Seq<SceneObject>) -> bool {
    forall|i: int|
        0 <= i < selection.uuids@.len() ==> crate::selection::object_from(
            objects,
            (#[trigger] selection.uuids@[i])@,
            0,
        ) is Some
}

/// Whether what is selected can be moved.
pub fn check_move(session: &EditSession, selection: &Selection, objects: &Vec<SceneObject>) -> (r:
    Result<(), Refusal>)
    ensures
        r == (if !session.editing() {
            Err::<(), Refusal>(Refusal::ReadOnly)
        } else if selection.uuids@.len() == 0 {
            Err::<(), Refusal>(Refusal::NothingToMove)
        } else if !all_present(*selection, objects@) {
            Err::<(), Refusal>(Refusal::Gone)
        } else {
            Ok::<(), Refusal>(())
        }),
{
    if !session.is_enabled() {
        return Err(Refusal::ReadOnly);
    }
    if selection.uuids.len() == 0 {
        return Err(Refusal::NothingToMove);
    }
    let mut i: usize = 0;
    while i < selection.uuids.len()
        invariant
            i <= selection.uuids@.len(),
            session.editing(),
            selection.uuids@.len() > 0,
            forall|k: int|
                0 <= k < i ==> crate::selection::object_from(
                    objects@,
                    (#[trigger] selection.uuids@[k])@,
                    0,
                ) is Some,
        decreases selection.uuids@.len() - i,
    {
        match find_object(objects, selection.uuids[i].as_str()) {
            Some(_) => {},
            None => {
                assert(crate::selection::object_from(
                    objects@,
                    selection.uuids@[i as int]@,
                    0,
                ) is None);
                return Err(Refusal::Gone);
            },
        }
        i = i + 1;
    }
    Ok(())
}

/// Whether what is selected can be deleted.
pub fn check_delete(session: &EditSession, selection: &Selection) -> (r: Result<(), Refusal>)
    ensures
        r == (if !session.editing() {
            Err::<(), Refusal>(Refusal::ReadOnly)
        } else if selection.uuids@.len() == 0 {
            Err::<(), Refusal>(Refusal::NothingToDelete)
        } else {
            Ok::<(), Refusal>(())
        }),
{
    if !session.is_enabled() {
        Err(Refusal::ReadOnly)
    } else if selection.uuids.len() == 0 {
        Err(Refusal::NothingToDelete)
    } else {
        Ok(())
    }
}

/// A symbol of the given identifier is among the objects.
pub open spec fn has_symbol(objects: Seq<SceneObject>, uuid: Seq<char>) -> bool {
    exists|i: int|
        0 <= i < objects.len() && (#[trigger] objects[i]).uuid@ == uuid && objects[i].kind
            == ObjectKind::Symbol
}

/// Whether what is selected can be duplicated: it is one symbol.
pub fn check_duplicate(session: &EditSession, selection: &Selection, objects: &Vec<SceneObject>) -> (r:
    Result<(), Refusal>)
    ensures
        r == (if !session.editing() {
            Err::<(), Refusal>(Refusal::ReadOnly)
        } else if selection.uuids@.len() != 1 {
            Err::<(), Refusal>(Refusal::NotOne)
        } else if !has_symbol(objects@, selection.uuids@[0]@) {
            Err::<(), Refusal>(Refusal::NotASymbol)
        } else {
            Ok::<(), Refusal>(())
        }),
{
    if !session.is_enabled() {
        return Err(Refusal::ReadOnly);
    }
    if selection.uuids.len() != 1 {
        return Err(Refusal::NotOne);
    }
    let mut i: usize = 0;
    while i < objects.len()
        invariant
            i <= objects@.len(),
            session.editing(),
            selection.uuids@.len() == 1,
            forall|k: int|
                0 <= k < i ==> !((#[trigger] objects@[k]).uuid@ == selection.uuids@[0]@
                    && objects@[k].kind == ObjectKind::Symbol),
        decreases objects@.len() - i,
    {
        let object = &objects[i];
        if object.kind == ObjectKind::Symbol && same(
            object.uuid.as_str(),
            selection.uuids[0].as_str(),
        ) {
            assert(has_symbol(objects@, selection.uuids@[0]@));
            return Ok(());
        }
        i = i + 1;
    }
    Err(Refusal::NotASymbol)
}

/// The label of a change to as many items.
pub fn label_for(count: usize, one: &str, more: &str) -> (r: String)
    ensures
        r@ == (if count == 1 {
            one@
        } else {
            more@
        }),
{
    if count == 1 {
        one.to_owned()
    } else {
        more.to_owned()
    }
}

/// What is said where something is to be placed beside the page.
pub fn beside_page_status(what: &str) -> (r: String)
    ensures
        r@ == "Place "@ + what@ + " inside the schematic page"@,
{
    joined3("Place ", what, " inside the schematic page")
}

/// What is said of a step in the history that is not taken.
pub open spec fn step_text<C>(step: HistoryStep<C>, undoing: bool) -> Option<Seq<char>> {
    match step {
        HistoryStep::NotEditing => Some(
            "Read-only · enable Edit mode before changing the schematic"@,
        ),
        HistoryStep::Nothing => Some(
            if undoing {
                "Nothing to undo"@
            } else {
                "Nothing to redo"@
            },
        ),
        HistoryStep::Empty => Some("History entry had no commands"@),
        HistoryStep::Rootless => Some("Grouped history has no project transaction directory"@),
        _ => None,
    }
}

/// What is said of a step in the history that is not taken.
pub fn step_status<C>(step: &HistoryStep<C>, undoing: bool) -> (r: Option<String>)
    ensures
        crate::text::opt_view(r) == step_text(*step, undoing),
{
    match step {
        HistoryStep::NotEditing => Some(
            "Read-only · enable Edit mode before changing the schematic".to_owned(),
        ),
        HistoryStep::Nothing => Some(
            if undoing {
                "Nothing to undo".to_owned()
            } else {
                "Nothing to redo".to_owned()
            },
        ),
        HistoryStep::Empty => Some("History entry had no commands".to_owned()),
        HistoryStep::Rootless => Some(
            "Grouped history has no project transaction directory".to_owned(),
        ),
        _ => None,
    }
}

/// What is said of a step of several documents that is not staged, by the file that stopped it and
/// the reason given.
pub fn group_failure_status(failure: GroupFailure, file: &str, error: &str) -> (r: String)
    ensures
        r@ == match failure {
            GroupFailure::Unreadable => "Could not read "@ + file@ + " for staged history"@,
            GroupFailure::Rejected | GroupFailure::Conflict => "Grouped staging conflict: "@
                + error@,
            GroupFailure::Creation => "Grouped creation history conflict: "@ + error@,
        },
{
    match failure {
        GroupFailure::Unreadable => joined3("Could not read ", file, " for staged history"),
        GroupFailure::Rejected | GroupFailure::Conflict => joined(
            "Grouped staging conflict: ",
            error,
        ),
        GroupFailure::Creation => joined("Grouped creation history conflict: ", error),
    }
}

/// What is said of a step of several documents that is staged.
pub fn group_staged_status(label: &str) -> (r: String)
    ensures
        r@ == "Staged "@ + label@ + " across multiple files · press Commit"@,
{
    joined3("Staged ", label, " across multiple files · press Commit")
}

/// What is said of transactions that were found interrupted, and of how many files they completed.
pub fn recovered_status(transactions: usize, files: usize) -> (r: String)
    ensures
        r@ == "Recovered "@ + crate::text::decimal(transactions as nat)
            + " interrupted transaction(s), completing "@ + crate::text::decimal(files as nat)
            + " file(s)"@,
{
    let mut r = joined3(
        "Recovered ",
        to_decimal(transactions as u128).as_str(),
        " interrupted transaction(s), completing ",
    );
    r.append(to_decimal(files as u128).as_str());
    r.append(" file(s)");
    r
}

} // verus!
