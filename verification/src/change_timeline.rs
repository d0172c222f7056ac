//! The changes made to the schematic while the viewer runs, in the order in which they came.

use crate::text::chars_contain;
use crate::text::chars_of;
use crate::text::lower_chars;
use crate::text::sorted_set;
use vstd::prelude::*;

verus! {

/// For how many milliseconds a change is introduced.
pub const INTRO_MILLIS: u64 = 420;

#[derive(Clone, Copy, PartialEq, Eq, Structural, Debug)]
pub enum ChangeOrigin {
    Local,
    External,
    Undo,
    Redo,
}

#[derive(Clone, Copy, PartialEq, Eq, Structural, Debug)]
pub enum ChangeKind {
    Add,
    Delete,
    Duplicate,
    Edit,
    External,
    Move,
    Redo,
    Transform,
    Undo,
    Wire,
}

/// One of the words occurs in `label`.
pub open spec fn mentions(label: Seq<char>, words: Seq<Seq<char>>) -> bool {
    exists|i: int| 0 <= i < words.len() && crate::text::occurs(label, #[trigger] words[i])
}

/// The kind of a change that the viewer made itself or found in the file, by the first group of
/// words that its label mentions.
pub open spec fn kind_of_label(label: Seq<char>) -> Option<ChangeKind> {
    if mentions(label, seq!["duplicat"@]) {
        Some(ChangeKind::Duplicate)
    } else if mentions(label, seq!["delet"@, "remov"@]) {
        Some(ChangeKind::Delete)
    } else if mentions(label, seq!["wire"@, "bus"@]) {
        Some(ChangeKind::Wire)
    } else if mentions(label, seq!["mov"@, "nudge"@]) {
        Some(ChangeKind::Move)
    } else if mentions(label, seq!["rotat"@, "mirror"@, "transform"@]) {
        Some(ChangeKind::Transform)
    } else if mentions(label, seq!["add"@, "creat"@, "insert"@, "place"@]) {
        Some(ChangeKind::Add)
    } else if mentions(label, seq!["edit"@, "chang"@, "renam"@, "resiz"@, "propert"@]) {
        Some(ChangeKind::Edit)
    } else {
        None
    }
}

/// The kind of a change.
pub open spec fn kind_of(origin: ChangeOrigin, label: Seq<char>) -> ChangeKind {
    match origin {
        ChangeOrigin::Undo => ChangeKind::Undo,
        ChangeOrigin::Redo => ChangeKind::Redo,
        _ => match kind_of_label(crate::text::lower(label)) {
            Some(kind) => kind,
            None => if origin == ChangeOrigin::External {
                ChangeKind::External
            } else {
                ChangeKind::Edit
            },
        },
    }
}

fn has_any(label: &Vec<char>, words: &[&str]) -> (r: bool)
    ensures
        r == mentions(label@, words@.map_values(|w: &str| w@)),
{
    let ghost all = words@.map_values(|w: &str| w@);
    let mut i: usize = 0;
    while i < words.len()
        invariant
            i <= words@.len(),
            all == words@.map_values(|w: &str| w@),
            forall|k: int| 0 <= k < i ==> !crate::text::occurs(label@, #[trigger] all[k]),
        decreases words@.len() - i,
    {
        let word = chars_of(words[i]);
        assert(all[i as int] == word@);
        if chars_contain(label, &word) {
            return true;
        }
        i = i + 1;
    }
    false
}

impl ChangeKind {
    /// The kind of a change, by where it came from and what its label says.
    pub fn classify(origin: ChangeOrigin, label: &str) -> (r: ChangeKind)
        ensures
            r == kind_of(origin, label@),
    {
        match origin {
            ChangeOrigin::Undo => {
                return ChangeKind::Undo;
            },
            ChangeOrigin::Redo => {
                return ChangeKind::Redo;
            },
            _ => {},
        }
        let label = lower_chars(label);
        let duplicate: [&str; 1] = ["duplicat"];
        let delete: [&str; 2] = ["delet", "remov"];
        let wire: [&str; 2] = ["wire", "bus"];
        let shift: [&str; 2] = ["mov", "nudge"];
        let transform: [&str; 3] = ["rotat", "mirror", "transform"];
        let addition: [&str; 4] = ["add", "creat", "insert", "place"];
        let edit: [&str; 5] = ["edit", "chang", "renam", "resiz", "propert"];
        proof {
            assert(duplicate@.map_values(|w: &str| w@) =~= seq!["duplicat"@]);
            assert(delete@.map_values(|w: &str| w@) =~= seq!["delet"@, "remov"@]);
            assert(wire@.map_values(|w: &str| w@) =~= seq!["wire"@, "bus"@]);
            assert(shift@.map_values(|w: &str| w@) =~= seq!["mov"@, "nudge"@]);
            assert(transform@.map_values(|w: &str| w@) =~= seq![
                "rotat"@,
                "mirror"@,
                "transform"@,
            ]);
            assert(addition@.map_values(|w: &str| w@) =~= seq![
                "add"@,
                "creat"@,
                "insert"@,
                "place"@,
            ]);
            assert(edit@.map_values(|w: &str| w@) =~= seq![
                "edit"@,
                "chang"@,
                "renam"@,
                "resiz"@,
                "propert"@,
            ]);
        }
        if has_any(&label, &duplicate) {
            ChangeKind::Duplicate
        } else if has_any(&label, &delete) {
            ChangeKind::Delete
        } else if has_any(&label, &wire) {
            ChangeKind::Wire
        } else if has_any(&label, &shift) {
            ChangeKind::Move
        } else if has_any(&label, &transform) {
            ChangeKind::Transform
        } else if has_any(&label, &addition) {
            ChangeKind::Add
        } else if has_any(&label, &edit) {
            ChangeKind::Edit
        } else {
            match origin {
                ChangeOrigin::External => ChangeKind::External,
                _ => ChangeKind::Edit,
            }
        }
    }
}

impl ChangeOrigin {
    pub open spec fn spec_label(self) -> Seq<char> {
        match self {
            ChangeOrigin::Local => "You"@,
            ChangeOrigin::External => "Konnect"@,
            ChangeOrigin::Undo => "Undo"@,
            ChangeOrigin::Redo => "Redo"@,
        }
    }

    /// Who made the change, for the reader.
    pub fn label(self) -> (r: &'static str)
        ensures
            r@ == self.spec_label(),
    {
        match self {
            ChangeOrigin::Local => "You",
            ChangeOrigin::External => "Konnect",
            ChangeOrigin::Undo => "Undo",
            ChangeOrigin::Redo => "Redo",
        }
    }
}

/// A change to the schematic.
pub struct ChangeEvent {
    pub id: u64,
    pub origin: ChangeOrigin,
    pub kind: ChangeKind,
    pub label: String,
    pub file: String,
    pub uuids: Vec<String>,
    /// Wall-clock milliseconds.
    pub recorded_at: u64,
    /// Milliseconds of the clock that never runs backwards.
    pub introduced_at: u64,
}

impl ChangeEvent {
    pub open spec fn spec_is_animating(self, now: u64) -> bool {
        now < self.introduced_at + INTRO_MILLIS
    }

    /// How far the change has been introduced, from 0 to 1.
    pub open spec fn spec_intro_progress(self, now: u64) -> crate::double::Double {
        if !self.spec_is_animating(now) {
            crate::screen::px(1)
        } else if now <= self.introduced_at {
            crate::screen::px(0)
        } else {
            crate::double::spec_ratio(now - self.introduced_at, 1000).spec_quotient(
                crate::double::spec_ratio(INTRO_MILLIS as int, 1000),
            )
        }
    }

    /// How far the change has been introduced, from 0 to 1.
    pub fn intro_progress(&self, now: u64) -> (r: crate::double::Double)
        ensures
            r == self.spec_intro_progress(now),
            r.wf(),
            r.within(2000),
    {
        if !self.is_animating(now) {
            crate::screen::pixels(1)
        } else if now <= self.introduced_at {
            crate::screen::pixels(0)
        } else {
            crate::double::ratio((now - self.introduced_at) as i64, 1000).divided_by(
                crate::double::ratio(INTRO_MILLIS as i64, 1000),
            )
        }
    }

    /// The change is still being introduced.
    pub fn is_animating(&self, now: u64) -> (r: bool)
        ensures
            r == self.spec_is_animating(now),
    {
        now <= self.introduced_at || now - self.introduced_at < INTRO_MILLIS
    }
}

/// All changes so far, the oldest first.
pub struct ChangeTimeline {
    events: Vec<ChangeEvent>,
    next_id: u64,
}

/// The identifier after `id`; zero is none.
pub open spec fn id_after(id: u64) -> u64 {
    if id == u64::MAX {
        1
    } else {
        (id + 1) as u64
    }
}

/// The first of the events from `from` on with the given identifier.
pub open spec fn event_from(events: Seq<ChangeEvent>, id: u64, from: nat) -> Option<int>
    decreases events.len() - from,
{
    if from >= events.len() {
        None
    } else if events[from as int].id == id {
        Some(from as int)
    } else {
        event_from(events, id, from + 1)
    }
}

impl ChangeTimeline {
    pub closed spec fn view(self) -> Seq<ChangeEvent> {
        self.events@
    }

    /// The identifier of the last change.
    pub closed spec fn last_id(self) -> u64 {
        self.next_id
    }

    /// The events are numbered in the order in which they came, from one on.
    pub open spec fn numbered(self) -> bool {
        &&& self@.len() == self.last_id()
        &&& forall|i: int| 0 <= i < self@.len() ==> (#[trigger] self@[i]).id == i + 1
    }

    /// A timeline without changes.
    pub fn new() -> (r: ChangeTimeline)
        ensures
            r@ == Seq::<ChangeEvent>::empty(),
            r.last_id() == 0,
            r.numbered(),
    {
        ChangeTimeline { events: Vec::new(), next_id: 0 }
    }

    /// Records a change and answers its identifier.
    pub fn push(
        &mut self,
        origin: ChangeOrigin,
        label: String,
        file: String,
        uuids: &Vec<String>,
        recorded_at: u64,
        introduced_at: u64,
    ) -> (id: u64)
        ensures
            id == id_after(old(self).last_id()),
            final(self).last_id() == id,
            final(self)@.len() == old(self)@.len() + 1,
            final(self)@.drop_last() == old(self)@,
            ({
                let event = final(self)@.last();
                &&& event.id == id
                &&& event.origin == origin
                &&& event.kind == kind_of(origin, label@)
                &&& event.label@ == label@
                &&& event.file@ == file@
                &&& crate::text::is_sorted_set(
                    crate::text::views(event.uuids@),
                    crate::text::views(uuids@),
                )
                &&& event.recorded_at == recorded_at
                &&& event.introduced_at == introduced_at
            }),
            old(self).numbered() && old(self).last_id() < u64::MAX ==> final(self).numbered(),
    {
        let id: u64 = if self.next_id == u64::MAX {
            1
        } else {
            self.next_id + 1
        };
        self.next_id = id;
        let kind = ChangeKind::classify(origin, label.as_str());
        let ghost before = self.events@;
        self.events.push(
            ChangeEvent {
                id,
                origin,
                kind,
                label,
                file,
                uuids: sorted_set(uuids),
                recorded_at,
                introduced_at,
            },
        );
        assert(self.events@.drop_last() =~= before);
        id
    }

    /// The changes, the oldest first.
    pub fn events(&self) -> (r: &Vec<ChangeEvent>)
        ensures
            r@ == self@,
    {
        &self.events
    }

    /// The number of changes.
    pub fn len(&self) -> (r: usize)
        ensures
            r == self@.len(),
    {
        self.events.len()
    }

    /// The first change with the given identifier.
    pub fn event(&self, id: u64) -> (r: Option<&ChangeEvent>)
        ensures
            match (r, event_from(self@, id, 0)) {
                (Some(event), Some(i)) => 0 <= i < self@.len() && *event == self@[i] && event.id
                    == id,
                (None, None) => true,
                _ => false,
            },
    {
        let mut i: usize = 0;
        while i < self.events.len()
            invariant
                i <= self.events@.len(),
                event_from(self@, id, 0) == event_from(self@, id, i as nat),
            decreases self.events@.len() - i,
        {
            if self.events[i].id == id {
                return Some(&self.events[i]);
            }
            i = i + 1;
        }
        None
    }

    /// The last change is still being introduced.
    pub fn is_animating(&self, now: u64) -> (r: bool)
        ensures
            r == (self@.len() > 0 && self@.last().spec_is_animating(now)),
    {
        let n: usize = self.events.len();
        n > 0 && self.events[n - 1].is_animating(now)
    }
}

/// In a numbered timeline every identifier up to the last finds its own change, and no other
/// identifier finds any: nothing that happened is forgotten.
pub proof fn numbered_events_are_found(timeline: ChangeTimeline, id: u64)
    requires
        timeline.numbered(),
    ensures
        event_from(timeline@, id, 0) == (if 0 < id <= timeline.last_id() {
            Some(id - 1)
        } else {
            None
        }),
{
    lemma_numbered(timeline, id, 0);
}

proof fn lemma_numbered(timeline: ChangeTimeline, id: u64, from: nat)
    requires
        timeline.numbered(),
        from <= timeline@.len(),
        id == 0 || id > from,
    ensures
        event_from(timeline@, id, from) == (if 0 < id <= timeline.last_id() {
            Some(id - 1)
        } else {
            None
        }),
    decreases timeline@.len() - from,
{
    if from < timeline@.len() && timeline@[from as int].id != id {
        lemma_numbered(timeline, id, from + 1);
    }
}

proof fn lemma_found_stays(events: Seq<ChangeEvent>, event: ChangeEvent, id: u64, from: nat)
    requires
        event_from(events, id, from) is Some,
    ensures
        event_from(events.push(event), id, from) == event_from(events, id, from),
    decreases events.len() - from,
{
    if from < events.len() {
        assert(events.push(event)[from as int] == events[from as int]);
        if events[from as int].id != id {
            lemma_found_stays(events, event, id, from + 1);
        }
    }
}

/// A change that was recorded is found for as long as the timeline lasts: what is recorded later
/// neither removes it nor takes its place.
pub proof fn recorded_changes_stay(events: Seq<ChangeEvent>, later: ChangeEvent, id: u64)
    requires
        event_from(events, id, 0) is Some,
    ensures
        event_from(events.push(later), id, 0) == event_from(events, id, 0),
{
    lemma_found_stays(events, later, id, 0);
}

} // verus!
