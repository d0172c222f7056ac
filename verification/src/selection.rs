//! What is selected.

use crate::edit_control::Transform;
use crate::geometry::{box_selects_bounds, Point};
use crate::scene::ObjectKind;
use crate::scene_builder::SceneObject;
use crate::text::{find_name, has_name, same, to_decimal};
use vstd::prelude::*;

verus! {

/// The identifiers of the items that are selected, none twice.
pub struct Selection {
    pub uuids: Vec<String>,
}

/// `uuid` names one of the objects.
pub open spec fn names_object(objects: Seq<SceneObject>, uuid: Seq<char>) -> bool {
    exists|i: int| 0 <= i < objects.len() && (#[trigger] objects[i]).uuid@ == uuid
}

impl Selection {
    pub open spec fn names(self) -> Seq<Seq<char>> {
        crate::text::views(self.uuids@)
    }

    pub open spec fn view(&self) -> Set<Seq<char>> {
        self.names().to_set()
    }

    pub open spec fn wf(self) -> bool {
        crate::edit_session::distinct(self.names())
    }

    /// Nothing.
    pub fn new() -> (r: Selection)
        ensures
            r.wf(),
            r@ == Set::<Seq<char>>::empty(),
    {
        let r = Selection { uuids: Vec::new() };
        proof {
            assert(r.names() =~= Seq::empty());
            assert(r@ =~= Set::<Seq<char>>::empty());
        }
        r
    }

    /// How many items are selected.
    pub fn len(&self) -> (r: usize)
        requires
            self.wf(),
        ensures
            r == self@.len(),
            r == self.uuids@.len(),
    {
        proof {
            lemma_size(self.names());
        }
        self.uuids.len()
    }

    pub fn contains(&self, uuid: &str) -> (r: bool)
        ensures
            r == self@.contains(uuid@),
    {
        has_name(&self.uuids, uuid)
    }

    pub fn clear(&mut self)
        ensures
            final(self).wf(),
            final(self)@ == Set::<Seq<char>>::empty(),
    {
        self.uuids.clear();
        proof {
            assert(self.names() =~= Seq::empty());
            assert(self@ =~= Set::<Seq<char>>::empty());
        }
    }

    /// Selects one more item.
    pub fn insert(&mut self, uuid: &str)
        requires
            old(self).wf(),
        ensures
            final(self).wf(),
            final(self)@ == old(self)@.insert(uuid@),
    {
        if !has_name(&self.uuids, uuid) {
            let ghost before = self.names();
            self.uuids.push(uuid.to_owned());
            proof {
                assert(self.names() =~= before.push(uuid@));
                lemma_pushed(before, uuid@);
            }
        } else {
            assert(self@ =~= self@.insert(uuid@));
        }
    }

    /// Selects an item, and nothing else.
    pub fn select_only(&mut self, uuid: &str)
        ensures
            final(self).wf(),
            final(self)@ == Set::<Seq<char>>::empty().insert(uuid@),
    {
        self.clear();
        self.insert(uuid);
    }

    /// Selects an item, or no longer where it was selected.
    pub fn toggle(&mut self, uuid: &str)
        requires
            old(self).wf(),
        ensures
            final(self).wf(),
            final(self)@ == (if old(self)@.contains(uuid@) {
                old(self)@.remove(uuid@)
            } else {
                old(self)@.insert(uuid@)
            }),
    {
        match find_name(&self.uuids, uuid) {
            Some(at) => {
                let ghost before = self.names();
                let _ = self.uuids.remove(at);
                proof {
                    crate::text::place_finds(before, uuid@, 0);
                    assert(self.names() =~= before.remove(at as int));
                    lemma_removed(before, at as int);
                }
            },
            None => {
                self.insert(uuid);
            },
        }
    }

    /// What a click on an item does: with a key held it is added or taken away, else it alone is
    /// selected.
    pub fn click(&mut self, uuid: &str, additive: bool)
        requires
            old(self).wf(),
        ensures
            final(self).wf(),
            final(self)@ == (if !additive {
                Set::<Seq<char>>::empty().insert(uuid@)
            } else if old(self)@.contains(uuid@) {
                old(self)@.remove(uuid@)
            } else {
                old(self)@.insert(uuid@)
            }),
    {
        if additive {
            self.toggle(uuid);
        } else {
            self.select_only(uuid);
        }
    }

    /// Every selected item is there, and there is one: the selection can be moved.
    pub open spec fn spec_movable(self, objects: Seq<SceneObject>) -> bool {
        self@.len() > 0 && forall|uuid: Seq<char>| #[trigger]
            self@.contains(uuid) ==> names_object(objects, uuid)
    }

    /// Whether the selection can be moved.
    pub fn selected_items_are_movable(&self, objects: &Vec<SceneObject>) -> (r: bool)
        requires
            self.wf(),
        ensures
            r == self.spec_movable(objects@),
    {
        proof {
            lemma_size(self.names());
        }
        if self.uuids.len() == 0 {
            return false;
        }
        let mut i: usize = 0;
        while i < self.uuids.len()
            invariant
                i <= self.uuids@.len(),
                forall|k: int|
                    0 <= k < i ==> names_object(objects@, (#[trigger] self.uuids@[k])@),
            decreases self.uuids@.len() - i,
        {
            match find_object(objects, self.uuids[i].as_str()) {
                Some(_) => {},
                None => {
                    assert(self.names()[i as int] == self.uuids@[i as int]@);
                    assert(self@.contains(self.uuids@[i as int]@));
                    return false;
                },
            }
            i = i + 1;
        }
        proof {
            assert forall|uuid: Seq<char>| #[trigger] self@.contains(uuid) implies names_object(
                objects@,
                uuid,
            ) by {
                let k = choose|k: int| 0 <= k < self.names().len() && self.names()[k] == uuid;
                assert(self.uuids@[k]@ == uuid);
            }
        }
        true
    }

    /// Selects what a box that was drawn selects, besides what was selected before.
    pub fn add_boxed(&mut self, objects: &Vec<SceneObject>, start: Point, end: Point)
        requires
            old(self).wf(),
            forall|i: int| 0 <= i < objects@.len() ==> (#[trigger] objects@[i]).wf(),
            start.wf(),
            end.wf(),
        ensures
            final(self).wf(),
            forall|uuid: Seq<char>| #[trigger]
                final(self)@.contains(uuid) <==> old(self)@.contains(uuid) || boxed(
                    objects@,
                    start,
                    end,
                    objects@.len(),
                    uuid,
                ),
    {
        let mut i: usize = 0;
        while i < objects.len()
            invariant
                i <= objects@.len(),
                self.wf(),
                forall|i: int| 0 <= i < objects@.len() ==> (#[trigger] objects@[i]).wf(),
                start.wf(),
                end.wf(),
                forall|uuid: Seq<char>| #[trigger]
                    self@.contains(uuid) <==> old(self)@.contains(uuid) || boxed(
                        objects@,
                        start,
                        end,
                        i as nat,
                        uuid,
                    ),
            decreases objects@.len() - i,
        {
            assert(objects@[i as int].wf());
            if box_selects_bounds(objects[i].bounds, start, end) {
                self.insert(objects[i].uuid.as_str());
            }
            i = i + 1;
        }
    }

    /// Keeps only what is there.
    pub fn keep_present(&mut self, objects: &Vec<SceneObject>)
        requires
            old(self).wf(),
        ensures
            final(self).wf(),
            forall|uuid: Seq<char>| #[trigger]
                final(self)@.contains(uuid) <==> old(self)@.contains(uuid) && names_object(
                    objects@,
                    uuid,
                ),
    {
        let mut kept = Selection::new();
        let mut i: usize = 0;
        let ghost all = self.names();
        while i < self.uuids.len()
            invariant
                i <= self.uuids@.len(),
                kept.wf(),
                all == self.names(),
                *self == *old(self),
                forall|uuid: Seq<char>| #[trigger]
                    kept@.contains(uuid) <==> all.take(i as int).contains(uuid) && names_object(
                        objects@,
                        uuid,
                    ),
            decreases self.uuids@.len() - i,
        {
            let ghost u = all[i as int];
            proof {
                assert(all.take(i + 1) =~= all.take(i as int).push(u));
                assert forall|uuid: Seq<char>| #[trigger]
                    all.take(i + 1).contains(uuid) <==> all.take(i as int).contains(uuid) || uuid
                        == u by {
                    let t = all.take(i as int).push(u);
                    if t.contains(uuid) {
                        let k = choose|k: int| 0 <= k < t.len() && t[k] == uuid;
                        if k < i {
                            assert(all.take(i as int)[k] == uuid);
                        }
                    }
                    if all.take(i as int).contains(uuid) {
                        let k = choose|k: int|
                            0 <= k < all.take(i as int).len() && all.take(i as int)[k] == uuid;
                        assert(t[k] == uuid);
                    }
                    assert(t[i as int] == u);
                }
            }
            match find_object(objects, self.uuids[i].as_str()) {
                Some(_) => {
                    kept.insert(self.uuids[i].as_str());
                },
                None => {},
            }
            i = i + 1;
        }
        proof {
            assert(all.take(all.len() as int) =~= all);
        }
        self.uuids = kept.uuids;
    }
}

/// One of the first `n` objects has the identifier and is selected by the box.
pub open spec fn boxed(
    objects: Seq<SceneObject>,
    start: Point,
    end: Point,
    n: nat,
    uuid: Seq<char>,
) -> bool
    decreases n,
{
    if n == 0 {
        false
    } else {
        boxed(objects, start, end, (n - 1) as nat, uuid) || (objects[n - 1].uuid@ == uuid
            && box_takes(objects[n - 1], start, end))
    }
}

/// A box that was drawn selects the object: drawn to the left one that it meets, else one that
/// it holds.
pub open spec fn box_takes(object: SceneObject, start: Point, end: Point) -> bool {
    if end.x.spec_less(start.x) {
        object.bounds.spec_intersects(crate::geometry::box_between(start, end))
    } else {
        crate::geometry::box_between(start, end).encloses(object.bounds)
    }
}

/// The first object of the given identifier, from the `i`-th on.
pub open spec fn object_from(objects: Seq<SceneObject>, uuid: Seq<char>, i: nat) -> Option<int>
    decreases objects.len() - i,
{
    if i >= objects.len() {
        None
    } else if objects[i as int].uuid@ == uuid {
        Some(i as int)
    } else {
        object_from(objects, uuid, i + 1)
    }
}

/// The first object of the given identifier.
pub fn find_object(objects: &Vec<SceneObject>, uuid: &str) -> (r: Option<usize>)
    ensures
        match r {
            Some(i) => object_from(objects@, uuid@, 0) == Some(i as int) && i < objects@.len()
                && objects@[i as int].uuid@ == uuid@,
            None => object_from(objects@, uuid@, 0) is None,
        },
        r is Some <==> names_object(objects@, uuid@),
{
    let mut i: usize = 0;
    while i < objects.len()
        invariant
            i <= objects@.len(),
            object_from(objects@, uuid@, 0) == object_from(objects@, uuid@, i as nat),
            forall|k: int| 0 <= k < i ==> (#[trigger] objects@[k]).uuid@ != uuid@,
        decreases objects@.len() - i,
    {
        if same(objects[i].uuid.as_str(), uuid) {
            return Some(i);
        }
        i = i + 1;
    }
    None
}

/// What an object is called.
pub open spec fn kind_text(kind: ObjectKind) -> Seq<char> {
    match kind {
        ObjectKind::Bus => "Bus"@,
        ObjectKind::BusEntry => "BusEntry"@,
        ObjectKind::Junction => "Junction"@,
        ObjectKind::Label => "Label"@,
        ObjectKind::NoConnect => "NoConnect"@,
        ObjectKind::Sheet => "Sheet"@,
        ObjectKind::Symbol => "Symbol"@,
        ObjectKind::Text => "Text"@,
        ObjectKind::Wire => "Wire"@,
    }
}

/// What an object is called.
pub fn kind_name(kind: ObjectKind) -> (r: &'static str)
    ensures
        r@ == kind_text(kind),
{
    match kind {
        ObjectKind::Bus => "Bus",
        ObjectKind::BusEntry => "BusEntry",
        ObjectKind::Junction => "Junction",
        ObjectKind::Label => "Label",
        ObjectKind::NoConnect => "NoConnect",
        ObjectKind::Sheet => "Sheet",
        ObjectKind::Symbol => "Symbol",
        ObjectKind::Text => "Text",
        ObjectKind::Wire => "Wire",
    }
}

/// What is said of a click on an object.
pub fn selection_status(count: usize, object: &SceneObject) -> (r: String)
    ensures
        r@ == "Selected "@ + crate::text::decimal(count as nat) + " item(s) · "@ + kind_text(
            object.kind,
        ) + " · "@ + object.label@,
{
    let mut r = "Selected ".to_owned();
    r.append(to_decimal(count as u128).as_str());
    r.append(" item(s) · ");
    r.append(kind_name(object.kind));
    r.append(" · ");
    r.append(object.label.as_str());
    r
}

/// What is said of a box that was drawn.
pub fn box_status(count: usize) -> (r: String)
    ensures
        r@ == "Selected "@ + crate::text::decimal(count as nat) + " item(s)"@,
{
    let mut r = "Selected ".to_owned();
    r.append(to_decimal(count as u128).as_str());
    r.append(" item(s)");
    r
}

/// The object can be turned over so.
pub open spec fn can_transform(t: Transform, kind: ObjectKind) -> bool {
    match t {
        Transform::Rotate => kind == ObjectKind::Symbol || kind == ObjectKind::BusEntry,
        _ => kind == ObjectKind::Symbol,
    }
}

fn supports(t: Transform, kind: ObjectKind) -> (r: bool)
    ensures
        r == can_transform(t, kind),
{
    match t {
        Transform::Rotate => kind == ObjectKind::Symbol || kind == ObjectKind::BusEntry,
        _ => kind == ObjectKind::Symbol,
    }
}

/// Some object of the identifier can be turned over so.
pub open spec fn some_transforms(objects: Seq<SceneObject>, uuid: Seq<char>, t: Transform) -> bool {
    exists|i: int|
        0 <= i < objects.len() && (#[trigger] objects[i]).uuid@ == uuid && can_transform(
            t,
            objects[i].kind,
        )
}

fn any_transforms(objects: &Vec<SceneObject>, uuid: &str, t: Transform) -> (r: bool)
    ensures
        r == some_transforms(objects@, uuid@, t),
{
    let mut i: usize = 0;
    while i < objects.len()
        invariant
            i <= objects@.len(),
            forall|k: int|
                0 <= k < i ==> !((#[trigger] objects@[k]).uuid@ == uuid@ && can_transform(
                    t,
                    objects@[k].kind,
                )),
        decreases objects@.len() - i,
    {
        if same(objects[i].uuid.as_str(), uuid) && supports(t, objects[i].kind) {
            return true;
        }
        i = i + 1;
    }
    false
}

/// Whether all that is selected can be turned over so; the identifiers, in order, where it can,
/// and else what is said.
pub fn check_transform(selection: &Selection, objects: &Vec<SceneObject>, t: Transform) -> (r: Result<
    Vec<String>,
    String,
>)
    requires
        selection.wf(),
    ensures
        match r {
            Ok(uuids) => selection@.len() > 0 && (forall|uuid: Seq<char>| #[trigger]
                selection@.contains(uuid) ==> some_transforms(objects@, uuid, t))
                && crate::text::is_sorted_set(crate::text::views(uuids@), selection.names()),
            Err(status) => if selection@.len() == 0 {
                status@ == "Select one or more items to "@ + (match t {
                    Transform::Rotate => "rotate"@,
                    _ => "mirror"@,
                })
            } else {
                (exists|uuid: Seq<char>| #[trigger]
                    selection@.contains(uuid) && !some_transforms(objects@, uuid, t)) && status@
                    == t.spec_name() + " requires "@ + t.spec_items()
            },
        },
{
    proof {
        lemma_size(selection.names());
    }
    if selection.uuids.len() == 0 {
        let mut status = "Select one or more items to ".to_owned();
        match t {
            Transform::Rotate => {
                status.append("rotate");
            },
            _ => {
                status.append("mirror");
            },
        }
        return Err(status);
    }
    let mut i: usize = 0;
    while i < selection.uuids.len()
        invariant
            i <= selection.uuids@.len(),
            selection@.len() > 0,
            forall|k: int|
                0 <= k < i ==> some_transforms(objects@, (#[trigger] selection.uuids@[k])@, t),
        decreases selection.uuids@.len() - i,
    {
        if !any_transforms(objects, selection.uuids[i].as_str(), t) {
            let mut status = t.name().to_owned();
            status.append(" requires ");
            status.append(t.items());
            assert(selection.names()[i as int] == selection.uuids@[i as int]@);
            assert(selection@.contains(selection.uuids@[i as int]@));
            return Err(status);
        }
        i = i + 1;
    }
    proof {
        assert forall|uuid: Seq<char>| #[trigger] selection@.contains(uuid) implies some_transforms(
            objects@,
            uuid,
            t,
        ) by {
            let k = choose|k: int| 0 <= k < selection.names().len() && selection.names()[k] == uuid;
            assert(selection.uuids@[k]@ == uuid);
        }
    }
    Ok(crate::text::sorted_set(&selection.uuids))
}

/// A list without repetitions has as many members as places.
proof fn lemma_size(names: Seq<Seq<char>>)
    requires
        crate::edit_session::distinct(names),
    ensures
        names.to_set().len() == names.len(),
{
    assert(names.no_duplicates());
    names.unique_seq_to_set();
}

proof fn lemma_pushed(names: Seq<Seq<char>>, name: Seq<char>)
    requires
        crate::edit_session::distinct(names),
        !names.contains(name),
    ensures
        crate::edit_session::distinct(names.push(name)),
        names.push(name).to_set() == names.to_set().insert(name),
{
    let more = names.push(name);
    assert forall|n: Seq<char>| #[trigger] more.to_set().contains(n) <==> names.to_set().insert(
        name,
    ).contains(n) by {
        if more.contains(n) {
            let k = choose|k: int| 0 <= k < more.len() && more[k] == n;
            if k < names.len() {
                assert(names[k] == n);
            }
        }
        if names.contains(n) {
            let k = choose|k: int| 0 <= k < names.len() && names[k] == n;
            assert(more[k] == n);
        }
        assert(more[names.len() as int] == name);
    }
    assert(more.to_set() =~= names.to_set().insert(name));
    assert forall|i: int, j: int|
        #![trigger more[i], more[j]]
        0 <= i < j < more.len() implies more[i] != more[j] by {
        if j == names.len() {
            assert(names[i] == more[i]);
        } else {
            assert(names[i] != names[j]);
        }
    }
}

proof fn lemma_removed(names: Seq<Seq<char>>, at: int)
    requires
        crate::edit_session::distinct(names),
        0 <= at < names.len(),
    ensures
        crate::edit_session::distinct(names.remove(at)),
        names.remove(at).to_set() == names.to_set().remove(names[at]),
{
    let less = names.remove(at);
    assert forall|n: Seq<char>| #[trigger] less.to_set().contains(n) <==> names.to_set().remove(
        names[at],
    ).contains(n) by {
        if less.contains(n) {
            let k = choose|k: int| 0 <= k < less.len() && less[k] == n;
            if k < at {
                assert(names[k] == n);
            } else {
                assert(names[k + 1] == n);
            }
        }
        if names.contains(n) && n != names[at] {
            let k = choose|k: int| 0 <= k < names.len() && names[k] == n;
            if k < at {
                assert(less[k] == n);
            } else {
                assert(less[k - 1] == n);
            }
        }
    }
    assert(less.to_set() =~= names.to_set().remove(names[at]));
    assert forall|i: int, j: int|
        #![trigger less[i], less[j]]
        0 <= i < j < less.len() implies less[i] != less[j] by {
        let p = if i < at {
            i
        } else {
            i + 1
        };
        let q = if j < at {
            j
        } else {
            j + 1
        };
        assert(names[p] != names[q]);
    }
}

/// Clicking an item twice with a key held leaves the selection as it was.
pub proof fn clicking_twice_changes_nothing(selected: Set<Seq<char>>, uuid: Seq<char>)
    ensures
        ({
            let once = if selected.contains(uuid) {
                selected.remove(uuid)
            } else {
                selected.insert(uuid)
            };
            let twice = if once.contains(uuid) {
                once.remove(uuid)
            } else {
                once.insert(uuid)
            };
            twice == selected
        }),
{
    if selected.contains(uuid) {
        assert(selected.remove(uuid).insert(uuid) =~= selected);
    } else {
        assert(selected.insert(uuid).remove(uuid) =~= selected);
    }
}

} // verus!
