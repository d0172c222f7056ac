//! The dialogs in which properties, labels, sheets and pins of sheets are entered, and the
//! drawing of wires.

use crate::double::{ratio, Double};
use crate::edit_control::require_edit_mode;
use crate::edit_session::EditSession;
use crate::geometry::{greater, Point};
use crate::input::{type_key, KeyPress, Modifiers, Typing};
use crate::scene::{ObjectKind, ObjectProperty};
use crate::scene_builder::SceneObject;
use crate::screen::Page;
use crate::selection::{find_object, Selection};
use crate::sheet_facts::{nearest_sheet_edge, SheetRect, Side};
use crate::text::{same, trim};
use crate::viewer_settings::clamp;
use vstd::prelude::*;

verus! {

/// What comes of opening a dialog.
pub enum Opening<T> {
    /// It is open, and this is said.
    Opened(T, String),
    /// It is not, for the reason that is said.
    Refused(String),
    /// Nothing happens.
    Ignored,
}

/// A key that turns to another field means nothing in a dialog with one field.
pub open spec fn in_one_field(t: Typing) -> Typing {
    if t == Typing::Turn {
        Typing::Ignored
    } else {
        t
    }
}

fn one_field(t: Typing) -> (r: Typing)
    ensures
        r == in_one_field(t),
{
    match t {
        Typing::Turn => Typing::Ignored,
        other => other,
    }
}

/// A property that is being edited.
pub struct PropertyEdit {
    pub file: String,
    pub uuid: String,
    pub name: String,
    pub value: String,
}

impl PropertyEdit {
    /// What a key does.
    pub fn handle_key(&mut self, key: &KeyPress, modifiers: Modifiers) -> (r: Typing)
        ensures
            r == in_one_field(crate::input::typing(key.model(), modifiers.spec_editing())),
            final(self).value@ == crate::input::text_after(
                old(self).value@,
                key.model(),
                modifiers.spec_editing(),
            ),
            final(self).file == old(self).file,
            final(self).uuid == old(self).uuid,
            final(self).name == old(self).name,
    {
        one_field(type_key(&mut self.value, key, modifiers))
    }
}

/// The first of the properties, from the `i`-th on, that has the name.
pub open spec fn named_from(properties: Seq<ObjectProperty>, name: Seq<char>, i: nat) -> Option<int>
    decreases properties.len() - i,
{
    if i >= properties.len() {
        None
    } else if properties[i as int].name@ == name {
        Some(i as int)
    } else {
        named_from(properties, name, i + 1)
    }
}

/// The first of the properties, from the `i`-th on, that can be edited as it stands.
pub open spec fn free_from(properties: Seq<ObjectProperty>, i: nat) -> Option<int>
    decreases properties.len() - i,
{
    if i >= properties.len() {
        None
    } else if is_free(properties[i as int].name@) {
        Some(i as int)
    } else {
        free_from(properties, i + 1)
    }
}

/// A property that can be edited as it stands.
pub open spec fn is_free(name: Seq<char>) -> bool {
    name != "Library"@ && name != "Position"@ && name != "Reference"@ && name != "Text"@
}

/// The property of an item that is edited first: its value, or else any that can be.
pub open spec fn primary_property(properties: Seq<ObjectProperty>) -> Option<int> {
    match named_from(properties, "Value"@, 0) {
        Some(i) => Some(i),
        None => free_from(properties, 0),
    }
}

fn find_named(properties: &Vec<ObjectProperty>, name: &str) -> (r: Option<usize>)
    ensures
        match r {
            Some(i) => i < properties@.len() && named_from(properties@, name@, 0) == Some(i as int),
            None => named_from(properties@, name@, 0) is None,
        },
{
    let mut i: usize = 0;
    while i < properties.len()
        invariant
            i <= properties@.len(),
            named_from(properties@, name@, 0) == named_from(properties@, name@, i as nat),
        decreases properties@.len() - i,
    {
        if same(properties[i].name.as_str(), name) {
            return Some(i);
        }
        i = i + 1;
    }
    None
}

fn find_primary(properties: &Vec<ObjectProperty>) -> (r: Option<usize>)
    ensures
        match r {
            Some(i) => i < properties@.len() && primary_property(properties@) == Some(i as int),
            None => primary_property(properties@) is None,
        },
{
    if let Some(i) = find_named(properties, "Value") {
        return Some(i);
    }
    let mut i: usize = 0;
    while i < properties.len()
        invariant
            i <= properties@.len(),
            named_from(properties@, "Value"@, 0) is None,
            free_from(properties@, 0) == free_from(properties@, i as nat),
        decreases properties@.len() - i,
    {
        let name = properties[i].name.as_str();
        if !same(name, "Library") && !same(name, "Position") && !same(name, "Reference") && !same(
            name,
            "Text",
        ) {
            return Some(i);
        }
        i = i + 1;
    }
    None
}

/// Opens the dialog for the first property of the one item that is selected.
pub fn start_property_edit(
    session: &EditSession,
    selection: &Selection,
    file: &str,
    objects: &Vec<SceneObject>,
) -> (r: Opening<PropertyEdit>)
    requires
        selection.wf(),
    ensures
        match r {
            Opening::Refused(e) => if !session.editing() {
                e@ == "Read-only · enable Edit mode before changing the schematic"@
            } else if selection@.len() != 1 {
                e@ == "Select exactly one symbol to edit its properties"@
            } else {
                e@ == "This item has no directly editable property yet"@ && (
                crate::selection::object_from(objects@, selection.uuids@[0]@, 0) matches Some(i)
                    && primary_property(objects@[i].properties@) is None)
            },
            Opening::Ignored => session.editing() && selection@.len() == 1
                && crate::selection::object_from(objects@, selection.uuids@[0]@, 0) is None,
            Opening::Opened(edit, status) => {
                &&& session.editing() && selection@.len() == 1
                &&& crate::selection::object_from(objects@, selection.uuids@[0]@, 0) matches Some(i)
                    && (primary_property(objects@[i].properties@) matches Some(k) && {
                    &&& edit.file@ == file@
                    &&& edit.uuid@ == selection.uuids@[0]@
                    &&& edit.name@ == objects@[i].properties@[k].name@
                    &&& edit.value@ == objects@[i].properties@[k].value@
                    &&& status@ == "Editing "@ + edit.name@
                        + " · Enter to stage · Esc to cancel"@
                })
            },
        },
{
    if let Err(e) = require_edit_mode(session) {
        return Opening::Refused(e);
    }
    if selection.len() != 1 {
        return Opening::Refused("Select exactly one symbol to edit its properties".to_owned());
    }
    let uuid = selection.uuids[0].as_str();
    let i: usize = match find_object(objects, uuid) {
        Some(i) => i,
        None => {
            return Opening::Ignored;
        },
    };
    let properties = &objects[i].properties;
    match find_primary(properties) {
        None => Opening::Refused("This item has no directly editable property yet".to_owned()),
        Some(k) => {
            let name = properties[k].name.clone();
            let mut status = "Editing ".to_owned();
            status.append(name.as_str());
            status.append(" · Enter to stage · Esc to cancel");
            Opening::Opened(
                PropertyEdit {
                    file: file.to_owned(),
                    uuid: uuid.to_owned(),
                    name,
                    value: properties[k].value.clone(),
                },
                status,
            )
        },
    }
}

/// The value that an item's property has now.
pub open spec fn value_now(objects: Seq<SceneObject>, uuid: Seq<char>, name: Seq<char>) -> Option<
    Seq<char>,
> {
    match crate::selection::object_from(objects, uuid, 0) {
        Some(i) => match named_from(objects[i].properties@, name, 0) {
            Some(k) => Some(objects[i].properties@[k].value@),
            None => None,
        },
        None => None,
    }
}

/// Whether an edited property differs from what it is; else what is said.
pub fn check_property_edit(edit: &PropertyEdit, objects: &Vec<SceneObject>) -> (r: Result<
    (),
    String,
>)
    ensures
        match r {
            Ok(_) => value_now(objects@, edit.uuid@, edit.name@) != Some(edit.value@),
            Err(e) => value_now(objects@, edit.uuid@, edit.name@) == Some(edit.value@) && e@
                == edit.name@ + " is unchanged"@,
        },
{
    if let Some(i) = find_object(objects, edit.uuid.as_str()) {
        if let Some(k) = find_named(&objects[i].properties, edit.name.as_str()) {
            if same(objects[i].properties[k].value.as_str(), edit.value.as_str()) {
                let mut e = edit.name.clone();
                e.append(" is unchanged");
                return Err(e);
            }
        }
    }
    Ok(())
}

/// A label that is being placed.
pub struct LabelEdit {
    pub point: Point,
    pub value: String,
}

impl LabelEdit {
    /// What a key does.
    pub fn handle_key(&mut self, key: &KeyPress, modifiers: Modifiers) -> (r: Typing)
        ensures
            r == in_one_field(crate::input::typing(key.model(), modifiers.spec_editing())),
            final(self).value@ == crate::input::text_after(
                old(self).value@,
                key.model(),
                modifiers.spec_editing(),
            ),
            final(self).point == old(self).point,
    {
        one_field(type_key(&mut self.value, key, modifiers))
    }

    /// The name of the net, or what is said where there is none.
    pub fn accept(&self) -> (r: Result<String, String>)
        ensures
            match r {
                Ok(name) => name@ == crate::text::trimmed(self.value@) && name@.len() > 0,
                Err(e) => crate::text::trimmed(self.value@).len() == 0 && e@
                    == "A label needs a non-empty net name"@,
            },
    {
        let name = trim(self.value.as_str());
        if name.as_str().is_empty() {
            Err("A label needs a non-empty net name".to_owned())
        } else {
            Ok(name)
        }
    }
}

/// Opens the dialog for a label at the point under the cursor, where that lies on the page.
pub fn start_label_edit(session: &EditSession, point: Option<Point>) -> (r: Opening<LabelEdit>)
    ensures
        match r {
            Opening::Refused(e) => if !session.editing() {
                e@ == "Read-only · enable Edit mode before changing the schematic"@
            } else {
                point is None && e@ == "Place labels inside the schematic page"@
            },
            Opening::Opened(edit, status) => session.editing() && point == Some(edit.point)
                && edit.value@.len() == 0 && status@
                == "New local label · enter a net name · Enter to place"@,
            Opening::Ignored => false,
        },
{
    if let Err(e) = require_edit_mode(session) {
        return Opening::Refused(e);
    }
    match point {
        None => Opening::Refused("Place labels inside the schematic page".to_owned()),
        Some(point) => {
            let value = String::new();
            Opening::Opened(
                LabelEdit { point, value },
                "New local label · enter a net name · Enter to place".to_owned(),
            )
        },
    }
}

#[derive(Clone, Copy, PartialEq, Eq, Structural, Debug)]
pub enum SheetEditField {
    Name,
    File,
}

/// A sheet that is being placed.
pub struct SheetEdit {
    pub point: Point,
    pub name: String,
    pub file: String,
    pub field: SheetEditField,
}

impl SheetEdit {
    /// What a key does: it goes to the field that is turned to.
    pub fn handle_key(&mut self, key: &KeyPress, modifiers: Modifiers) -> (r: Typing)
        ensures
            r == crate::input::typing(key.model(), modifiers.spec_editing()),
            final(self).point == old(self).point,
            final(self).field == (if r == Typing::Turn {
                match old(self).field {
                    SheetEditField::Name => SheetEditField::File,
                    SheetEditField::File => SheetEditField::Name,
                }
            } else {
                old(self).field
            }),
            match old(self).field {
                SheetEditField::Name => final(self).file == old(self).file && final(self).name@
                    == crate::input::text_after(
                    old(self).name@,
                    key.model(),
                    modifiers.spec_editing(),
                ),
                SheetEditField::File => final(self).name == old(self).name && final(self).file@
                    == crate::input::text_after(
                    old(self).file@,
                    key.model(),
                    modifiers.spec_editing(),
                ),
            },
    {
        let typing = match self.field {
            SheetEditField::Name => type_key(&mut self.name, key, modifiers),
            SheetEditField::File => type_key(&mut self.file, key, modifiers),
        };
        if typing == Typing::Turn {
            self.field = match self.field {
                SheetEditField::Name => SheetEditField::File,
                SheetEditField::File => SheetEditField::Name,
            };
        }
        typing
    }
}

/// `v`, moved so that a sheet of the given size in hundredths of a millimetre fits a page.
pub open spec fn moved_in(v: Double, page: Double, size: int) -> Double {
    let margin = crate::double::spec_ratio(254, 100);
    crate::viewer_settings::clamped(
        v,
        margin,
        crate::geometry::spec_greater(
            page.spec_difference(crate::double::spec_ratio(size, 100)),
            margin,
        ),
    )
}

fn move_in(v: Double, page: Double, size: i64) -> (r: Double)
    requires
        v.wf(),
        crate::screen::plain(page),
        0 < size <= 100000,
    ensures
        r == moved_in(v, page, size as int),
        r.wf(),
{
    let margin = ratio(254, 100);
    clamp(v, margin, greater(page.minus(ratio(size, 100)), margin))
}

/// Opens the dialog for a sheet at the point under the cursor, moved so that the sheet fits the
/// page.
pub fn start_sheet_edit(session: &EditSession, point: Option<Point>, page: Option<Page>) -> (r: Opening<
    SheetEdit,
>)
    requires
        point matches Some(p) ==> p.x.wf() && p.y.wf(),
        page matches Some(p) ==> p.wf(),
    ensures
        match r {
            Opening::Refused(e) => if !session.editing() {
                e@ == "Read-only · enable Edit mode before changing the schematic"@
            } else {
                point is None && e@ == "Place hierarchical sheets inside the schematic page"@
            },
            Opening::Opened(edit, status) => session.editing() && (point matches Some(p)
                && edit.point == (match page {
                Some(page) => Point {
                    x: moved_in(p.x, page.width, 8254),
                    y: moved_in(p.y, page.height, 5254),
                },
                None => p,
            })) && edit.name@.len() == 0 && edit.file@.len() == 0 && edit.field
                == SheetEditField::Name && status@
                == "New hierarchical sheet · Tab switches name/file · Enter creates"@,
            Opening::Ignored => false,
        },
{
    if let Err(e) = require_edit_mode(session) {
        return Opening::Refused(e);
    }
    match point {
        None => Opening::Refused("Place hierarchical sheets inside the schematic page".to_owned()),
        Some(p) => {
            let point = match page {
                Some(page) => Point {
                    x: move_in(p.x, page.width, 8254),
                    y: move_in(p.y, page.height, 5254),
                },
                None => p,
            };
            Opening::Opened(
                SheetEdit {
                    point,
                    name: String::new(),
                    file: String::new(),
                    field: SheetEditField::Name,
                },
                "New hierarchical sheet · Tab switches name/file · Enter creates".to_owned(),
            )
        },
    }
}

/// A pin of a sheet that is being placed.
pub struct SheetPinEdit {
    pub sheet_uuid: String,
    pub point: Point,
    pub side: Side,
    pub name: String,
    /// The electrical kind, as a schematic names it.
    pub kind: String,
}

impl SheetPinEdit {
    /// What a key does. A turn is to the next electrical kind.
    pub fn handle_key(&mut self, key: &KeyPress, modifiers: Modifiers) -> (r: Typing)
        ensures
            r == crate::input::typing(key.model(), modifiers.spec_editing()),
            final(self).name@ == crate::input::text_after(
                old(self).name@,
                key.model(),
                modifiers.spec_editing(),
            ),
            final(self).sheet_uuid == old(self).sheet_uuid,
            final(self).point == old(self).point,
            final(self).side == old(self).side,
            final(self).kind == old(self).kind,
    {
        type_key(&mut self.name, key, modifiers)
    }

    /// The name of the pin, or what is said where there is none.
    pub fn accept(&self) -> (r: Result<String, String>)
        ensures
            match r {
                Ok(name) => name@ == crate::text::trimmed(self.name@) && name@.len() > 0,
                Err(e) => crate::text::trimmed(self.name@).len() == 0 && e@
                    == "A hierarchical sheet pin needs a non-empty name"@,
            },
    {
        let name = trim(self.name.as_str());
        if name.as_str().is_empty() {
            Err("A hierarchical sheet pin needs a non-empty name".to_owned())
        } else {
            Ok(name)
        }
    }
}

/// The sheet that is selected, and nothing else.
pub open spec fn selected_sheet(selection: Selection, objects: Seq<SceneObject>) -> bool {
    selection@.len() == 1 && exists|i: int|
        0 <= i < objects.len() && (#[trigger] objects[i]).uuid@ == selection.uuids@[0]@
            && objects[i].kind == ObjectKind::Sheet
}

fn any_sheet(objects: &Vec<SceneObject>, uuid: &str) -> (r: bool)
    ensures
        r == (exists|i: int|
            0 <= i < objects@.len() && (#[trigger] objects@[i]).uuid@ == uuid@ && objects@[i].kind
                == ObjectKind::Sheet),
{
    let mut i: usize = 0;
    while i < objects.len()
        invariant
            i <= objects@.len(),
            forall|k: int|
                0 <= k < i ==> !((#[trigger] objects@[k]).uuid@ == uuid@ && objects@[k].kind
                    == ObjectKind::Sheet),
        decreases objects@.len() - i,
    {
        if same(objects[i].uuid.as_str(), uuid) && objects[i].kind == ObjectKind::Sheet {
            return true;
        }
        i = i + 1;
    }
    false
}

/// Opens the dialog for a pin of the one sheet that is selected, at the place of its edge
/// nearest to the cursor, or in the middle of its right side. The kind is the one that pins
/// begin with.
pub fn start_sheet_pin_edit(
    session: &EditSession,
    selection: &Selection,
    objects: &Vec<SceneObject>,
    outline: Option<SheetRect>,
    cursor: Option<Point>,
    grid_mm: Double,
    snap_enabled: bool,
    first_kind: &str,
) -> (r: Opening<SheetPinEdit>)
    requires
        selection.wf(),
        outline matches Some(rect) ==> rect.wf() && !rect.right.spec_less(rect.left)
            && !rect.bottom.spec_less(rect.top),
        cursor matches Some(p) ==> p.x.wf() && p.x.within(4000) && p.y.wf() && p.y.within(4000),
        grid_mm.wf() && grid_mm.within(4000),
        grid_mm.mantissa != 0,
    ensures
        match r {
            Opening::Refused(e) => if !session.editing() {
                e@ == "Read-only · enable Edit mode before changing the schematic"@
            } else if selection@.len() != 1 {
                e@ == "Select exactly one hierarchical sheet before adding a pin"@
            } else if !selected_sheet(*selection, objects@) {
                e@ == "The selected item is not a hierarchical sheet"@
            } else {
                outline is None && e@ == "Could not read the selected sheet geometry"@
            },
            Opening::Opened(edit, status) => {
                &&& session.editing()
                &&& selected_sheet(*selection, objects@)
                &&& outline matches Some(rect) && {
                    let at = match cursor {
                        Some(p) => p,
                        None => Point {
                            x: rect.right,
                            y: rect.top.spec_sum(rect.bottom).spec_quotient(crate::screen::px(2)),
                        },
                    };
                    let snapped = if snap_enabled {
                        Point {
                            x: crate::geometry::on_grid(at.x, grid_mm),
                            y: crate::geometry::on_grid(at.y, grid_mm),
                        }
                    } else {
                        at
                    };
                    &&& edit.side == crate::sheet_facts::nearest_side(rect, at)
                    &&& edit.point == crate::sheet_facts::on_side(rect, snapped, edit.side)
                }
                &&& edit.sheet_uuid@ == selection.uuids@[0]@
                &&& edit.name@.len() == 0
                &&& edit.kind@ == first_kind@
                &&& status@ == "New sheet pin · Tab cycles electrical type · Enter places"@
            },
            Opening::Ignored => false,
        },
{
    if let Err(e) = require_edit_mode(session) {
        return Opening::Refused(e);
    }
    if selection.len() != 1 {
        return Opening::Refused(
            "Select exactly one hierarchical sheet before adding a pin".to_owned(),
        );
    }
    let uuid = selection.uuids[0].as_str();
    if !any_sheet(objects, uuid) {
        return Opening::Refused("The selected item is not a hierarchical sheet".to_owned());
    }
    match outline {
        None => Opening::Refused("Could not read the selected sheet geometry".to_owned()),
        Some(rect) => {
            let at = match cursor {
                Some(p) => p,
                None => Point {
                    x: rect.right,
                    y: rect.top.plus(rect.bottom).divided_by(crate::screen::pixels(2)),
                },
            };
            let (point, side) = nearest_sheet_edge(rect, at, grid_mm, snap_enabled);
            Opening::Opened(
                SheetPinEdit {
                    sheet_uuid: uuid.to_owned(),
                    point,
                    side,
                    name: String::new(),
                    kind: first_kind.to_owned(),
                },
                "New sheet pin · Tab cycles electrical type · Enter places".to_owned(),
            )
        },
    }
}

/// A wire or a bus that is being drawn.
#[derive(Clone, Copy, PartialEq, Eq, Structural, Debug)]
pub struct WireDraft {
    pub start: Point,
    pub current: Point,
    pub is_bus: bool,
}

/// Starts a wire or a bus. `cursor` is where the pointer is, if anywhere: on the page, at the
/// given point of the grid, or beside it.
pub fn start_wire(session: &EditSession, cursor: Option<Option<Point>>, is_bus: bool) -> (r: Opening<
    WireDraft,
>)
    ensures
        match r {
            Opening::Refused(e) => if !session.editing() {
                e@ == "Read-only · enable Edit mode before changing the schematic"@
            } else if cursor is None {
                e@ == "Move the pointer onto the sheet before starting a wire"@
            } else {
                cursor == Some(None::<Point>) && e@ == "Start wires inside the schematic page"@
            },
            Opening::Opened(draft, status) => session.editing() && (cursor matches Some(Some(p))
                && draft == (WireDraft { start: p, current: p, is_bus })) && status@ == (
            if is_bus {
                "Bus"@
            } else {
                "Wire"@
            }) + " · click endpoint to stage · Esc to cancel"@,
            Opening::Ignored => false,
        },
{
    if let Err(e) = require_edit_mode(session) {
        return Opening::Refused(e);
    }
    match cursor {
        None => Opening::Refused(
            "Move the pointer onto the sheet before starting a wire".to_owned(),
        ),
        Some(None) => Opening::Refused("Start wires inside the schematic page".to_owned()),
        Some(Some(p)) => {
            let mut status = if is_bus {
                "Bus".to_owned()
            } else {
                "Wire".to_owned()
            };
            status.append(" · click endpoint to stage · Esc to cancel");
            Opening::Opened(WireDraft { start: p, current: p, is_bus }, status)
        },
    }
}

/// Whether a wire of the given length can be placed; else what is said.
pub fn check_wire(length: Double, is_bus: bool) -> (r: Result<(), String>)
    requires
        length.wf(),
    ensures
        match r {
            Ok(_) => !length.spec_less(crate::double::spec_ratio(1, 1000000000)),
            Err(e) => length.spec_less(crate::double::spec_ratio(1, 1000000000)) && e@ == (
            if is_bus {
                "Bus"@
            } else {
                "Wire"@
            }) + " needs two distinct endpoints"@,
        },
{
    if length.less(ratio(1, 1000000000)) {
        let mut e = if is_bus {
            "Bus".to_owned()
        } else {
            "Wire".to_owned()
        };
        e.append(" needs two distinct endpoints");
        Err(e)
    } else {
        Ok(())
    }
}

} // verus!
