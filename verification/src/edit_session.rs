//! Edits that are kept in memory until they are committed as a whole.

use crate::text::same;
use vstd::prelude::*;

verus! {

/// A document with edits: the text that it is based on, none for a new file, and the text that
/// it shall have.
pub struct StagedDocument {
    pub file: String,
    pub base: Option<String>,
    pub staged: String,
}

/// A staged document as a value.
#[verifier::ext_equal]
pub ghost struct Staged {
    pub file: Seq<char>,
    pub base: Option<Seq<char>>,
    pub staged: Seq<char>,
}

impl StagedDocument {
    pub open spec fn model(self) -> Staged {
        Staged {
            file: self.file@,
            base: crate::text::opt_view(self.base),
            staged: self.staged@,
        }
    }
}

impl Staged {
    /// The document differs from what it is based on.
    pub open spec fn dirty(self) -> bool {
        self.base != Some(self.staged)
    }
}

/// The document was changed since it was last looked at.
#[derive(Debug)]
pub struct Conflict {
    pub path: String,
}

/// What committing a document does to its file.
pub enum FileTransition {
    /// Replace the text that the file has to hold.
    Replace { file: String, base: String, staged: String },
    /// Write a file that may not be there yet.
    Create { file: String, staged: String },
}

/// A transition as a value.
pub ghost enum Transition {
    Replace { file: Seq<char>, base: Seq<char>, staged: Seq<char> },
    Create { file: Seq<char>, staged: Seq<char> },
}

impl FileTransition {
    pub open spec fn model(self) -> Transition {
        match self {
            FileTransition::Replace { file, base, staged } => Transition::Replace {
                file: file@,
                base: base@,
                staged: staged@,
            },
            FileTransition::Create { file, staged } => Transition::Create {
                file: file@,
                staged: staged@,
            },
        }
    }
}

/// The edits of a session. Documents and conflicts are kept under the names that stand for
/// their files.
pub struct EditSession {
    enabled: bool,
    keys: Vec<String>,
    documents: Vec<StagedDocument>,
    conflicted: Vec<String>,
}

/// Those of the names that are staged and not yet in conflict.
pub open spec fn newly_marked(
    names: Seq<Seq<char>>,
    staged: Set<Seq<char>>,
    conflicts: Set<Seq<char>>,
) -> Set<Seq<char>> {
    names.to_set().intersect(staged).difference(conflicts)
}

/// Marking documents adds to the conflicts exactly those of them that are staged and were not
/// marked before, and marking the same ones again adds nothing.
pub proof fn marking_again_marks_nothing(
    names: Seq<Seq<char>>,
    staged: Set<Seq<char>>,
    conflicts: Set<Seq<char>>,
)
    requires
        conflicts.finite(),
    ensures
        ({
            let after = conflicts.union(names.to_set().intersect(staged));
            &&& after.finite()
            &&& after.len() == conflicts.len() + newly_marked(names, staged, conflicts).len()
            &&& newly_marked(names, staged, after).len() == 0
            &&& after.union(names.to_set().intersect(staged)) == after
        }),
{
    let after = conflicts.union(names.to_set().intersect(staged));
    let added = newly_marked(names, staged, conflicts);
    vstd::seq_lib::seq_to_set_is_finite(names);
    assert(added.subset_of(names.to_set()));
    vstd::set_lib::lemma_len_subset(added, names.to_set());
    assert(after =~= conflicts.union(added));
    vstd::set_lib::lemma_set_disjoint_lens(conflicts, added);
    assert(newly_marked(names, staged, after) =~= Set::empty());
    assert(after.union(names.to_set().intersect(staged)) =~= after);
}

/// Each key occurs once.
pub open spec fn distinct(keys: Seq<Seq<char>>) -> bool {
    forall|i: int, j: int|
        #![trigger keys[i], keys[j]]
        0 <= i < j < keys.len() ==> keys[i] != keys[j]
}

impl EditSession {
    /// The keys of the staged documents, in the order in which they were first staged.
    pub closed spec fn order(self) -> Seq<Seq<char>> {
        crate::text::views(self.keys@)
    }

    /// The staged document at each place of that order.
    pub closed spec fn staged_at(self, i: int) -> Staged {
        self.documents@[i].model()
    }

    /// The staged documents.
    pub open spec fn staged(self) -> Map<Seq<char>, Staged> {
        Map::new(
            |key: Seq<char>| self.order().contains(key),
            |key: Seq<char>| self.staged_at(crate::text::place(self.order(), key, 0)->0),
        )
    }

    /// Editing is on.
    pub closed spec fn editing(self) -> bool {
        self.enabled
    }

    /// The keys of the documents that changed behind the session's back.
    pub closed spec fn conflicts(self) -> Set<Seq<char>> {
        crate::text::views(self.conflicted@).to_set()
    }

    pub closed spec fn wf(self) -> bool {
        &&& self.keys@.len() == self.documents@.len()
        &&& distinct(self.order())
        &&& distinct(crate::text::views(self.conflicted@))
        &&& self.conflicts().subset_of(self.staged().dom())
    }

    /// A session without edits, in which editing is off.
    pub fn new() -> (r: EditSession)
        ensures
            r.wf(),
            !r.editing(),
            r.order() == Seq::<Seq<char>>::empty(),
            r.staged() == Map::<Seq<char>, Staged>::empty(),
            r.conflicts() == Set::<Seq<char>>::empty(),
    {
        let r = EditSession {
            enabled: false,
            keys: Vec::new(),
            documents: Vec::new(),
            conflicted: Vec::new(),
        };
        proof {
            assert(r.order() =~= Seq::empty());
            assert(r.staged() =~= Map::empty());
            assert(crate::text::views(r.conflicted@) =~= Seq::empty());
            assert(r.conflicts() =~= Set::empty());
        }
        r
    }

    /// Whether editing is on.
    pub fn is_enabled(&self) -> (r: bool)
        ensures
            r == self.editing(),
    {
        self.enabled
    }

    /// Turns editing on or off.
    pub fn set_enabled(&mut self, enabled: bool)
        requires
            old(self).wf(),
        ensures
            final(self).wf(),
            final(self).editing() == enabled,
            final(self).order() == old(self).order(),
            final(self).staged() == old(self).staged(),
            final(self).conflicts() == old(self).conflicts(),
    {
        self.enabled = enabled;
        proof {
            assert(self.staged() =~= old(self).staged());
        }
    }

    fn find(&self, key: &str) -> (r: Option<usize>)
        requires
            self.wf(),
        ensures
            match r {
                Some(i) => self.staged().contains_key(key@) && i < self.documents@.len()
                    && self.staged()[key@] == self.documents@[i as int].model()
                    && self.order()[i as int] == key@,
                None => !self.staged().contains_key(key@),
            },
    {
        proof {
            crate::text::place_finds(self.order(), key@, 0);
        }
        crate::text::find_name(&self.keys, key)
    }

    /// Puts a document under a key that holds none.
    fn add(&mut self, key: String, document: StagedDocument)
        requires
            old(self).wf(),
            !old(self).staged().contains_key(key@),
        ensures
            final(self).wf(),
            final(self).editing() == old(self).editing(),
            final(self).order() == old(self).order().push(key@),
            final(self).staged() == old(self).staged().insert(key@, document.model()),
            final(self).conflicts() == old(self).conflicts(),
    {
        let ghost before = *self;
        let ghost name = key@;
        let ghost added = document.model();
        self.keys.push(key);
        self.documents.push(document);
        proof {
            let keys = before.order();
            assert(self.order() =~= keys.push(name));
            assert forall|i: int| 0 <= i < keys.len() implies self.staged_at(i)
                == before.staged_at(i) by {}
            lemma_pushed(before, *self, name, added);
        }
    }

    /// Replaces the text of the document at a place.
    fn restage(&mut self, at: usize, staged: String)
        requires
            old(self).wf(),
            at < old(self).documents@.len(),
        ensures
            final(self).wf(),
            final(self).editing() == old(self).editing(),
            final(self).order() == old(self).order(),
            ({
                let key = old(self).order()[at as int];
                final(self).staged() == old(self).staged().insert(
                    key,
                    Staged { staged: staged@, ..old(self).staged()[key] },
                )
            }),
            final(self).conflicts() == old(self).conflicts(),
    {
        let ghost before = *self;
        let ghost text = staged@;
        self.documents[at].staged = staged;
        proof {
            let keys = before.order();
            let key = keys[at as int];
            let expected = before.staged().insert(
                key,
                Staged { staged: text, ..before.staged()[key] },
            );
            assert forall|k: Seq<char>| #[trigger] self.staged().contains_key(k) implies
                self.staged()[k] == expected[k] by {
                crate::text::place_finds(keys, k, 0);
                crate::text::place_finds(keys, key, 0);
                let i = crate::text::place(keys, k, 0)->0;
                let j = crate::text::place(keys, key, 0)->0;
                assert(j == at);
                if k != key {
                    assert(i != at);
                }
            }
            crate::text::place_finds(keys, key, 0);
            assert(keys.contains(key));
            assert(self.staged() =~= expected);
        }
    }

    /// Stages the outcome of a command on the text `current`: the replacement that it gives, or
    /// the error with which it was rejected. The text must be the one that is staged, where any
    /// is.
    pub fn stage_command<E>(
        &mut self,
        key: String,
        file: &str,
        current: &str,
        prepared: Result<String, E>,
    ) -> (r: Result<(), StageError<E>>)
        requires
            old(self).wf(),
        ensures
            final(self).wf(),
            final(self).editing() == old(self).editing(),
            final(self).conflicts() == old(self).conflicts(),
            match (r, prepared) {
                (Err(StageError::Conflict(conflict)), _) => conflict.path@ == file@ && old(self).staged().contains_key(key@)
                    && old(self).staged()[key@].staged != current@,
                (Err(StageError::Rejected(error)), prepared) => prepared == Err::<String, E>(error)
                    && !(old(self).staged().contains_key(key@) && old(self).staged()[key@].staged
                    != current@),
                (Ok(_), Ok(replacement)) => final(self).staged() == replaced(
                    old(self).staged(),
                    key@,
                    file@,
                    current@,
                    replacement@,
                ) && !(old(self).staged().contains_key(key@) && old(self).staged()[key@].staged
                    != current@),
                (Ok(_), Err(_)) => false,
            },
            r is Err ==> final(self).staged() == old(self).staged() && final(self).order() == old(
                self,
            ).order(),
    {
        match self.find(key.as_str()) {
            Some(at) => {
                if !same(self.documents[at].staged.as_str(), current) {
                    return Err(StageError::Conflict(Conflict { path: file.to_owned() }));
                }
                match prepared {
                    Err(error) => {
                        return Err(StageError::Rejected(error));
                    },
                    Ok(replacement) => {
                        self.restage(at, replacement);
                    },
                }
            },
            None => {
                match prepared {
                    Err(error) => {
                        return Err(StageError::Rejected(error));
                    },
                    Ok(replacement) => {
                        self.add(
                            key,
                            StagedDocument {
                                file: file.to_owned(),
                                base: Some(current.to_owned()),
                                staged: replacement,
                            },
                        );
                    },
                }
            },
        }
        Ok(())
    }

    /// Stages a new text in place of `current`, which must be the one that is staged, where any
    /// is.
    pub fn stage_replacement(
        &mut self,
        key: String,
        file: &str,
        current: &str,
        replacement: String,
    ) -> (r: Result<(), Conflict>)
        requires
            old(self).wf(),
        ensures
            final(self).wf(),
            final(self).editing() == old(self).editing(),
            final(self).conflicts() == old(self).conflicts(),
            r is Err <==> old(self).staged().contains_key(key@) && old(self).staged()[key@].staged
                != current@,
            r is Ok ==> final(self).staged() == replaced(
                old(self).staged(),
                key@,
                file@,
                current@,
                replacement@,
            ),
            r matches Err(conflict) ==> conflict.path@ == file@ && final(self).staged() == old(
                self,
            ).staged() && final(self).order() == old(self).order(),
    {
        match self.find(key.as_str()) {
            Some(at) => {
                if !same(self.documents[at].staged.as_str(), current) {
                    return Err(Conflict { path: file.to_owned() });
                }
                self.restage(at, replacement);
            },
            None => {
                self.add(
                    key,
                    StagedDocument {
                        file: file.to_owned(),
                        base: Some(current.to_owned()),
                        staged: replacement,
                    },
                );
            },
        }
        Ok(())
    }

    /// Stages a file that is not there yet.
    pub fn stage_creation(&mut self, key: String, file: &str, source: String) -> (r: Result<
        (),
        Conflict,
    >)
        requires
            old(self).wf(),
        ensures
            final(self).wf(),
            final(self).editing() == old(self).editing(),
            final(self).conflicts() == old(self).conflicts(),
            r is Err <==> old(self).staged().contains_key(key@),
            r is Ok ==> final(self).staged() == old(self).staged().insert(
                key@,
                Staged { file: file@, base: None, staged: source@ },
            ),
            r matches Err(conflict) ==> conflict.path@ == file@ && final(self).staged() == old(
                self,
            ).staged() && final(self).order() == old(self).order(),
    {
        match self.find(key.as_str()) {
            Some(_) => Err(Conflict { path: file.to_owned() }),
            None => {
                self.add(
                    key,
                    StagedDocument { file: file.to_owned(), base: None, staged: source },
                );
                Ok(())
            },
        }
    }

    /// The text that is staged for a document.
    pub fn staged_source(&self, key: &str) -> (r: Option<&str>)
        requires
            self.wf(),
        ensures
            match r {
                Some(text) => self.staged().contains_key(key@) && self.staged()[key@].staged
                    == text@,
                None => !self.staged().contains_key(key@),
            },
    {
        match self.find(key) {
            Some(at) => Some(self.documents[at].staged.as_str()),
            None => None,
        }
    }
}

/// Why a command is not staged.
pub enum StageError<E> {
    /// The text is not the one that is staged.
    Conflict(Conflict),
    /// The command was rejected.
    Rejected(E),
}

/// The staged documents after `key` got a new text in place of `current`.
pub open spec fn replaced(
    staged: Map<Seq<char>, Staged>,
    key: Seq<char>,
    file: Seq<char>,
    current: Seq<char>,
    replacement: Seq<char>,
) -> Map<Seq<char>, Staged> {
    if staged.contains_key(key) {
        staged.insert(key, Staged { staged: replacement, ..staged[key] })
    } else {
        staged.insert(key, Staged { file, base: Some(current), staged: replacement })
    }
}

/// The staged documents after one more was put at the end.
proof fn lemma_pushed(before: EditSession, after: EditSession, name: Seq<char>, added: Staged)
    requires
        before.wf(),
        !before.staged().contains_key(name),
        after.order() == before.order().push(name),
        forall|i: int| 0 <= i < before.order().len() ==> after.staged_at(i) == before.staged_at(i),
        after.staged_at(before.order().len() as int) == added,
    ensures
        after.staged() == before.staged().insert(name, added),
        distinct(after.order()),
{
    let keys = before.order();
    let more = after.order();
    let expected = before.staged().insert(name, added);
    assert forall|i: int, j: int|
        #![trigger more[i], more[j]]
        0 <= i < j < more.len() implies more[i] != more[j] by {
        if j == keys.len() {
            assert(keys[i] == more[i]);
            if more[i] == name {
                assert(keys.contains(name));
            }
        } else {
            assert(keys[i] != keys[j]);
        }
    }
    assert forall|k: Seq<char>| #[trigger] expected.contains_key(k) <==> after.staged().contains_key(
        k,
    ) by {
        if keys.contains(k) {
            let i = choose|i: int| 0 <= i < keys.len() && keys[i] == k;
            assert(more[i] == k);
        }
        if more.contains(k) {
            let i = choose|i: int| 0 <= i < more.len() && more[i] == k;
            if i < keys.len() {
                assert(keys[i] == k);
            }
        }
        assert(more[keys.len() as int] == name);
    }
    assert forall|k: Seq<char>| #[trigger] expected.contains_key(k) implies after.staged()[k]
        == expected[k] by {
        crate::text::place_finds(keys, k, 0);
        crate::text::place_finds(more, k, 0);
        let i = crate::text::place(more, k, 0)->0;
        if k == name {
            if i < keys.len() {
                assert(keys[i] == name);
            }
        } else {
            let j = crate::text::place(keys, k, 0)->0;
            assert(more[j] == keys[j]);
            if i < j {
                assert(keys[i] == more[i]);
            }
        }
    }
    assert(after.staged() =~= expected);
}

impl EditSession {
    /// The documents among the first `n` that differ from what they are based on.
    pub open spec fn dirty_upto(self, n: nat) -> Seq<Staged>
        decreases n,
    {
        if n == 0 {
            Seq::empty()
        } else {
            let before = self.dirty_upto((n - 1) as nat);
            if self.staged_at(n - 1).dirty() {
                before.push(self.staged_at(n - 1))
            } else {
                before
            }
        }
    }

    /// The documents that differ from what they are based on, in the order in which they were
    /// first staged.
    pub open spec fn dirty(self) -> Seq<Staged> {
        self.dirty_upto(self.order().len())
    }

    /// The documents that differ from what they are based on.
    pub fn dirty_documents(&self) -> (r: Vec<&StagedDocument>)
        requires
            self.wf(),
        ensures
            r@.map_values(|d: &StagedDocument| d.model()) == self.dirty(),
    {
        let mut r: Vec<&StagedDocument> = Vec::new();
        let mut i: usize = 0;
        while i < self.documents.len()
            invariant
                self.wf(),
                i <= self.documents@.len(),
                self.order().len() == self.documents@.len(),
                r@.map_values(|d: &StagedDocument| d.model()) =~= self.dirty_upto(i as nat),
            decreases self.documents@.len() - i,
        {
            let document = &self.documents[i];
            let clean: bool = match &document.base {
                Some(base) => same(base.as_str(), document.staged.as_str()),
                None => false,
            };
            assert(self.staged_at(i as int) == document.model());
            if !clean {
                r.push(document);
            }
            i = i + 1;
        }
        r
    }

    /// How many documents differ from what they are based on.
    pub fn dirty_document_count(&self) -> (r: usize)
        requires
            self.wf(),
        ensures
            r == self.dirty().len(),
    {
        let dirty = self.dirty_documents();
        assert(dirty@.map_values(|d: &StagedDocument| d.model()).len() == dirty@.len());
        dirty.len()
    }

    /// There is something to commit.
    pub fn has_pending(&self) -> (r: bool)
        requires
            self.wf(),
        ensures
            r == (self.dirty().len() > 0),
            r <==> exists|key: Seq<char>| #[trigger]
                self.staged().contains_key(key) && self.staged()[key].dirty(),
    {
        proof {
            pending_is_dirty(*self);
        }
        self.dirty_document_count() > 0
    }

    /// What committing does to the files, as values.
    pub open spec fn planned(self) -> Seq<Transition> {
        self.dirty().map_values(|d: Staged| d.transition())
    }

    /// What committing does to the files.
    pub fn transitions(&self) -> (r: Vec<FileTransition>)
        requires
            self.wf(),
        ensures
            r@.map_values(|t: FileTransition| t.model()) == self.planned(),
    {
        let dirty = self.dirty_documents();
        let ghost all = self.dirty();
        let mut r: Vec<FileTransition> = Vec::new();
        let mut i: usize = 0;
        while i < dirty.len()
            invariant
                i <= dirty@.len(),
                all == self.dirty(),
                dirty@.map_values(|d: &StagedDocument| d.model()) == all,
                r@.len() == i,
                forall|k: int|
                    0 <= k < i ==> (#[trigger] r@[k]).model() == all[k].transition(),
            decreases dirty@.len() - i,
        {
            let document = dirty[i];
            assert(all[i as int] == document.model());
            let transition = match &document.base {
                Some(base) => FileTransition::Replace {
                    file: document.file.clone(),
                    base: base.clone(),
                    staged: document.staged.clone(),
                },
                None => FileTransition::Create {
                    file: document.file.clone(),
                    staged: document.staged.clone(),
                },
            };
            assert(transition.model() == all[i as int].transition());
            r.push(transition);
            i = i + 1;
        }
        assert(r@.map_values(|t: FileTransition| t.model()) =~= self.planned());
        r
    }

    /// Marks those of the documents that are staged as changed from outside, and answers how many
    /// were not marked before.
    pub fn mark_external_change(&mut self, keys: &Vec<String>) -> (r: usize)
        requires
            old(self).wf(),
        ensures
            final(self).wf(),
            final(self).editing() == old(self).editing(),
            final(self).order() == old(self).order(),
            final(self).staged() == old(self).staged(),
            final(self).conflicts() == old(self).conflicts().union(
                crate::text::views(keys@).to_set().intersect(old(self).staged().dom()),
            ),
            final(self).conflicts().len() == old(self).conflicts().len() + r,
            r == newly_marked(
                crate::text::views(keys@),
                old(self).staged().dom(),
                old(self).conflicts(),
            ).len(),
    {
        let ghost before = *self;
        let ghost names = crate::text::views(keys@);
        let mut i: usize = 0;
        let mut count: usize = 0;
        proof {
            assert(names.take(0).to_set() =~= Set::empty());
            assert(self.conflicts() =~= before.conflicts().union(
                names.take(0).to_set().intersect(before.staged().dom()),
            ));
        }
        while i < keys.len()
            invariant
                i <= keys@.len(),
                names == crate::text::views(keys@),
                self.wf(),
                before.wf(),
                self.enabled == before.enabled,
                self.keys == before.keys,
                self.documents == before.documents,
                self.order() == before.order(),
                self.staged() == before.staged(),
                count == self.conflicted@.len() - before.conflicted@.len(),
                self.conflicts() == before.conflicts().union(
                    names.take(i as int).to_set().intersect(before.staged().dom()),
                ),
            decreases keys@.len() - i,
        {
            let key = &keys[i];
            let ghost held = *self;
            proof {
                assert(names[i as int] == key@);
                assert(names.take(i + 1) =~= names.take(i as int).push(key@));
                lemma_pushed_set(names.take(i as int), key@);
            }
            let staged: bool = match self.find(key.as_str()) {
                Some(_) => true,
                None => false,
            };
            if staged && !crate::text::has_name(&self.conflicted, key.as_str()) {
                let ghost old_conflicts = crate::text::views(self.conflicted@);
                assert(self.conflicted.len() < usize::MAX) by {
                    lemma_conflicts_fit(held, key@);
                    assert(held.keys@.len() == held.keys.len());
                }
                self.conflicted.push(key.clone());
                count = count + 1;
                proof {
                    let now = crate::text::views(self.conflicted@);
                    assert(now =~= old_conflicts.push(key@));
                    lemma_pushed_set(old_conflicts, key@);
                    assert(self.staged() =~= held.staged());
                    assert forall|a: int, b: int|
                        #![trigger now[a], now[b]]
                        0 <= a < b < now.len() implies now[a] != now[b] by {
                        if b == old_conflicts.len() {
                            assert(old_conflicts[a] == now[a]);
                        } else {
                            assert(old_conflicts[a] != old_conflicts[b]);
                        }
                    }
                    assert(self.conflicts() =~= before.conflicts().union(
                        names.take(i + 1).to_set().intersect(before.staged().dom()),
                    ));
                }
            } else {
                proof {
                    if staged {
                        assert(held.conflicts().contains(key@));
                    }
                    assert(self.conflicts() =~= before.conflicts().union(
                        names.take(i + 1).to_set().intersect(before.staged().dom()),
                    ));
                }
            }
            i = i + 1;
        }
        proof {
            assert(names.take(i as int) =~= names);
            lemma_distinct_len(crate::text::views(self.conflicted@));
            lemma_distinct_len(crate::text::views(before.conflicted@));
            marking_again_marks_nothing(names, before.staged().dom(), before.conflicts());
        }
        count
    }

    /// Some document changed behind the session's back.
    pub fn is_conflicted(&self) -> (r: bool)
        requires
            self.wf(),
        ensures
            r == (self.conflicts().len() > 0),
    {
        proof {
            lemma_distinct_len(crate::text::views(self.conflicted@));
        }
        self.conflicted.len() > 0
    }

    /// How many documents changed behind the session's back.
    pub fn conflicted_count(&self) -> (r: usize)
        requires
            self.wf(),
        ensures
            r == self.conflicts().len(),
    {
        proof {
            lemma_distinct_len(crate::text::views(self.conflicted@));
        }
        self.conflicted.len()
    }

    /// Forgets all edits.
    pub fn clear(&mut self)
        requires
            old(self).wf(),
        ensures
            final(self).wf(),
            final(self).editing() == old(self).editing(),
            final(self).order() == Seq::<Seq<char>>::empty(),
            final(self).staged() == Map::<Seq<char>, Staged>::empty(),
            final(self).conflicts() == Set::<Seq<char>>::empty(),
    {
        self.keys.clear();
        self.documents.clear();
        self.conflicted.clear();
        proof {
            assert(self.order() =~= Seq::empty());
            assert(self.staged() =~= Map::empty());
            assert(crate::text::views(self.conflicted@) =~= Seq::empty());
            assert(self.conflicts() =~= Set::empty());
        }
    }
}

impl Staged {
    /// What committing the document does to its file.
    pub open spec fn transition(self) -> Transition {
        match self.base {
            Some(base) => Transition::Replace { file: self.file, base, staged: self.staged },
            None => Transition::Create { file: self.file, staged: self.staged },
        }
    }
}

proof fn lemma_pushed_set(s: Seq<Seq<char>>, x: Seq<char>)
    ensures
        s.push(x).to_set() == s.to_set().insert(x),
{
    let t = s.push(x);
    assert forall|k: Seq<char>| t.to_set().contains(k) <==> s.to_set().insert(x).contains(k) by {
        if s.contains(k) {
            let i = choose|i: int| 0 <= i < s.len() && s[i] == k;
            assert(t[i] == k);
        }
        if t.contains(k) {
            let i = choose|i: int| 0 <= i < t.len() && t[i] == k;
            if i < s.len() {
                assert(s[i] == k);
            }
        }
        assert(t[s.len() as int] == x);
    }
    assert(t.to_set() =~= s.to_set().insert(x));
}

proof fn lemma_distinct_len(s: Seq<Seq<char>>)
    requires
        distinct(s),
    ensures
        s.to_set().len() == s.len(),
        s.to_set().finite(),
{
    assert(s.no_duplicates());
    s.unique_seq_to_set();
}

/// While a staged document is not marked, there are fewer marks than documents.
proof fn lemma_conflicts_fit(session: EditSession, key: Seq<char>)
    requires
        session.wf(),
        session.staged().contains_key(key),
        !crate::text::views(session.conflicted@).contains(key),
    ensures
        session.conflicted@.len() < session.keys@.len(),
{
    let marks = crate::text::views(session.conflicted@);
    let keys = session.order();
    lemma_distinct_len(marks);
    lemma_distinct_len(keys);
    assert(session.staged().dom() =~= keys.to_set());
    assert(marks.to_set().subset_of(keys.to_set()));
    assert(keys.to_set().contains(key));
    assert(!marks.to_set().contains(key));
    vstd::set_lib::lemma_len_subset(marks.to_set().insert(key), keys.to_set());
}

proof fn lemma_dirty_upto(session: EditSession, n: nat)
    requires
        session.wf(),
        n <= session.order().len(),
    ensures
        session.dirty_upto(n).len() > 0 <==> exists|i: int|
            0 <= i < n && (#[trigger] session.staged_at(i)).dirty(),
    decreases n,
{
    if n > 0 {
        lemma_dirty_upto(session, (n - 1) as nat);
        if session.staged_at(n - 1).dirty() {
            assert(session.dirty_upto(n).len() > 0);
        }
    }
}

/// There is something to commit exactly where some staged text differs from what it is based
/// on.
pub proof fn pending_is_dirty(session: EditSession)
    requires
        session.wf(),
    ensures
        session.dirty().len() > 0 <==> exists|key: Seq<char>| #[trigger]
            session.staged().contains_key(key) && session.staged()[key].dirty(),
{
    let keys = session.order();
    lemma_dirty_upto(session, keys.len());
    if session.dirty().len() > 0 {
        let i = choose|i: int| 0 <= i < keys.len() && (#[trigger] session.staged_at(i)).dirty();
        crate::text::place_finds(keys, keys[i], 0);
        assert(keys.contains(keys[i]));
        assert(session.staged().contains_key(keys[i]));
        let j = crate::text::place(keys, keys[i], 0)->0;
        if j != i {
            assert(keys[j] == keys[i]);
        }
    }
    if exists|key: Seq<char>| #[trigger]
        session.staged().contains_key(key) && session.staged()[key].dirty() {
        let key = choose|key: Seq<char>| #[trigger]
            session.staged().contains_key(key) && session.staged()[key].dirty();
        crate::text::place_finds(keys, key, 0);
        let i = crate::text::place(keys, key, 0)->0;
        assert(session.staged_at(i).dirty());
    }
}

proof fn lemma_dirty_members(session: EditSession, n: nat, d: Staged)
    requires
        session.wf(),
        n <= session.order().len(),
    ensures
        session.dirty_upto(n).contains(d) <==> exists|i: int|
            0 <= i < n && #[trigger] session.staged_at(i) == d && d.dirty(),
    decreases n,
{
    if n > 0 {
        lemma_dirty_members(session, (n - 1) as nat, d);
        let before = session.dirty_upto((n - 1) as nat);
        let last = session.staged_at(n - 1);
        if last.dirty() {
            let now = before.push(last);
            if before.contains(d) {
                let k = choose|k: int| 0 <= k < before.len() && before[k] == d;
                assert(now[k] == d);
            }
            if now.contains(d) {
                let k = choose|k: int| 0 <= k < now.len() && now[k] == d;
                if k < before.len() {
                    assert(before[k] == d);
                }
            }
            assert(now[before.len() as int] == last);
        }
    }
}

/// Committing writes every document whose text differs from what it is based on, on the condition
/// that its file still holds that, and writes no other.
pub proof fn commits_write_every_change(session: EditSession)
    requires
        session.wf(),
    ensures
        forall|key: Seq<char>| #[trigger]
            session.staged().contains_key(key) && session.staged()[key].dirty()
                ==> session.planned().contains(session.staged()[key].transition()),
        forall|t: Transition| #[trigger]
            session.planned().contains(t) ==> exists|key: Seq<char>|
                session.staged().contains_key(key) && session.staged()[key].dirty() && t == (
                #[trigger] session.staged()[key]).transition(),
{
    let keys = session.order();
    let dirty = session.dirty();
    assert forall|key: Seq<char>| #[trigger]
        session.staged().contains_key(key)
            && session.staged()[key].dirty() implies session.planned().contains(
        session.staged()[key].transition(),
    ) by {
        let d = session.staged()[key];
        crate::text::place_finds(keys, key, 0);
        let i = crate::text::place(keys, key, 0)->0;
        assert(session.staged_at(i) == d);
        lemma_dirty_members(session, keys.len(), d);
        let k = choose|k: int| 0 <= k < dirty.len() && dirty[k] == d;
        assert(session.planned()[k] == d.transition());
    }
    assert forall|t: Transition| #[trigger] session.planned().contains(t) implies exists|
        key: Seq<char>,
    |
        session.staged().contains_key(key) && session.staged()[key].dirty() && t == (
        #[trigger] session.staged()[key]).transition() by {
        let k = choose|k: int| 0 <= k < session.planned().len() && session.planned()[k] == t;
        let d = dirty[k];
        assert(dirty.contains(d));
        lemma_dirty_members(session, keys.len(), d);
        let i = choose|i: int|
            0 <= i < keys.len() && #[trigger] session.staged_at(i) == d && d.dirty();
        let key = keys[i];
        crate::text::place_finds(keys, key, 0);
        assert(keys.contains(key));
        let j = crate::text::place(keys, key, 0)->0;
        if j != i {
            assert(keys[j] == keys[i]);
        }
        assert(session.staged()[key] == d);
    }
}

impl EditSession {
    /// The keys of the documents among the first `n` that differ from what they are based on.
    pub open spec fn dirty_keys_upto(self, n: nat) -> Seq<Seq<char>>
        decreases n,
    {
        if n == 0 {
            Seq::empty()
        } else if self.staged_at(n - 1).dirty() {
            self.dirty_keys_upto((n - 1) as nat).push(self.order()[n - 1])
        } else {
            self.dirty_keys_upto((n - 1) as nat)
        }
    }

    /// The keys of the documents that differ from what they are based on.
    pub open spec fn dirty_keys(self) -> Seq<Seq<char>> {
        self.dirty_keys_upto(self.order().len())
    }
}

proof fn lemma_dirty_keys(session: EditSession, n: nat)
    requires
        session.wf(),
        n <= session.order().len(),
    ensures
        ({
            let names = session.dirty_keys_upto(n);
            let dirty = session.dirty_upto(n);
            &&& names.len() == dirty.len()
            &&& distinct(names)
            &&& forall|k: int|
                0 <= k < names.len() ==> session.staged().contains_key(#[trigger] names[k])
                    && session.staged()[names[k]] == dirty[k] && dirty[k].dirty()
            &&& forall|k: int| 0 <= k < names.len() ==> exists|i: int|
                0 <= i < n && session.order()[i] == #[trigger] names[k]
        }),
    decreases n,
{
    if n > 0 {
        lemma_dirty_keys(session, (n - 1) as nat);
        let keys = session.order();
        let before = session.dirty_keys_upto((n - 1) as nat);
        if session.staged_at(n - 1).dirty() {
            let key = keys[n - 1];
            let names = before.push(key);
            crate::text::place_finds(keys, key, 0);
            assert(keys.contains(key));
            let j = crate::text::place(keys, key, 0)->0;
            if j != n - 1 {
                assert(keys[j] == keys[n - 1]);
            }
            assert forall|a: int, b: int|
                #![trigger names[a], names[b]]
                0 <= a < b < names.len() implies names[a] != names[b] by {
                assert(names[a] == before[a]);
                if b == before.len() {
                    let i = choose|i: int| 0 <= i < n - 1 && keys[i] == before[a];
                    assert(keys[i] != keys[n - 1]);
                } else {
                    assert(names[b] == before[b]);
                }
            }
            assert forall|k: int| 0 <= k < names.len() implies exists|i: int|
                0 <= i < n && keys[i] == #[trigger] names[k] by {
                if k == before.len() {
                    assert(keys[n - 1] == names[k]);
                } else {
                    assert(names[k] == before[k]);
                    let i = choose|i: int| 0 <= i < n - 1 && keys[i] == before[k];
                    assert(keys[i] == names[k]);
                }
            }
        }
    }
}

/// No document is staged twice, and only staged documents are in conflict, finitely many.
pub proof fn documents_are_staged_once(session: EditSession)
    requires
        session.wf(),
    ensures
        distinct(session.order()),
        session.conflicts().finite(),
        session.conflicts().subset_of(session.staged().dom()),
{
    vstd::seq_lib::seq_to_set_is_finite(crate::text::views(session.conflicted@));
}

/// Committing makes exactly one transition for each document that differs from what it is based
/// on: it creates a file that is not there yet, and replaces any other text by the staged one.
pub proof fn commits_write_each_document_once(session: EditSession)
    requires
        session.wf(),
    ensures
        distinct(session.dirty_keys()),
        session.planned().len() == session.dirty_keys().len() == session.dirty().len(),
        forall|k: int|
            0 <= k < session.dirty_keys().len() ==> session.staged().contains_key(
                #[trigger] session.dirty_keys()[k],
            ) && session.staged()[session.dirty_keys()[k]].dirty() && session.planned()[k]
                == session.staged()[session.dirty_keys()[k]].transition(),
        forall|key: Seq<char>| #[trigger]
            session.staged().contains_key(key) && session.staged()[key].dirty()
                ==> session.dirty_keys().contains(key),
{
    lemma_dirty_keys(session, session.order().len());
    assert forall|key: Seq<char>| #[trigger]
        session.staged().contains_key(key)
            && session.staged()[key].dirty() implies session.dirty_keys().contains(key) by {
        let keys = session.order();
        crate::text::place_finds(keys, key, 0);
        let i = crate::text::place(keys, key, 0)->0;
        lemma_dirty_key_found(session, i, keys.len());
    }
}

proof fn lemma_dirty_key_found(session: EditSession, i: int, n: nat)
    requires
        0 <= i < n <= session.order().len(),
        session.staged_at(i).dirty(),
    ensures
        session.dirty_keys_upto(n).contains(session.order()[i]),
    decreases n,
{
    let names = session.dirty_keys_upto(n);
    if i == n - 1 {
        assert(names[names.len() - 1] == session.order()[i]);
    } else {
        lemma_dirty_key_found(session, i, (n - 1) as nat);
        let before = session.dirty_keys_upto((n - 1) as nat);
        let k = choose|k: int| 0 <= k < before.len() && before[k] == session.order()[i];
        assert(names[k] == before[k]);
    }
}

/// Replacing a text and then putting the first one back leaves nothing to commit for the
/// document, whatever stood there in between.
pub proof fn returning_to_the_base_is_clean(
    staged: Map<Seq<char>, Staged>,
    key: Seq<char>,
    file: Seq<char>,
    original: Seq<char>,
    changed: Seq<char>,
)
    requires
        staged.contains_key(key) ==> staged[key].base == Some(original) && staged[key].staged
            == original,
    ensures
        !replaced(
            replaced(staged, key, file, original, changed),
            key,
            file,
            changed,
            original,
        )[key].dirty(),
{
}

/// A list of distinct names without one of them.
proof fn lemma_removed_names(names: Seq<Seq<char>>, at: int)
    requires
        distinct(names),
        0 <= at < names.len(),
    ensures
        distinct(names.remove(at)),
        names.remove(at).to_set() == names.to_set().remove(names[at]),
        forall|k: Seq<char>|
            k != names[at] && names.contains(k) ==> #[trigger] crate::text::place(
                names.remove(at),
                k,
                0,
            )->0 == (if crate::text::place(names, k, 0)->0 < at {
                crate::text::place(names, k, 0)->0
            } else {
                crate::text::place(names, k, 0)->0 - 1
            }),
        forall|k: Seq<char>| #[trigger]
            names.remove(at).contains(k) <==> names.contains(k) && k != names[at],
{
    let rest = names.remove(at);
    assert forall|i: int, j: int|
        #![trigger rest[i], rest[j]]
        0 <= i < j < rest.len() implies rest[i] != rest[j] by {
        let a = if i < at {
            i
        } else {
            i + 1
        };
        let b = if j < at {
            j
        } else {
            j + 1
        };
        assert(rest[i] == names[a] && rest[j] == names[b]);
    }
    assert forall|k: Seq<char>| #[trigger]
        rest.contains(k) <==> names.contains(k) && k != names[at] by {
        if rest.contains(k) {
            let i = choose|i: int| 0 <= i < rest.len() && rest[i] == k;
            let a = if i < at {
                i
            } else {
                i + 1
            };
            assert(names[a] == k);
        }
        if names.contains(k) && k != names[at] {
            let i = choose|i: int| 0 <= i < names.len() && names[i] == k;
            let a = if i < at {
                i
            } else {
                i - 1
            };
            assert(rest[a] == k);
        }
    }
    assert(rest.to_set() =~= names.to_set().remove(names[at]));
    assert forall|k: Seq<char>| k != names[at] && names.contains(k) implies
        #[trigger] crate::text::place(rest, k, 0)->0 == (if crate::text::place(names, k, 0)->0
        < at {
        crate::text::place(names, k, 0)->0
    } else {
        crate::text::place(names, k, 0)->0 - 1
    }) by {
        crate::text::place_finds(names, k, 0);
        crate::text::place_finds(rest, k, 0);
        assert(rest.contains(k));
        let i = crate::text::place(names, k, 0)->0;
        let j = crate::text::place(rest, k, 0)->0;
        let b = if j < at {
            j
        } else {
            j + 1
        };
        assert(rest[j] == names[b]);
        if b != i {
            assert(names[b] == names[i]);
        }
    }
}

impl EditSession {
    /// Takes back a file that was to be created with the given text.
    pub fn cancel_creation(&mut self, key: &str, file: &str, source: &str) -> (r: Result<(), Conflict>)
        requires
            old(self).wf(),
        ensures
            final(self).wf(),
            final(self).editing() == old(self).editing(),
            r is Ok <==> old(self).staged().contains_key(key@) && old(self).staged()[key@].base
                is None && old(self).staged()[key@].staged == source@,
            r is Ok ==> final(self).staged() == old(self).staged().remove(key@)
                && final(self).conflicts() == old(self).conflicts().remove(key@),
            r matches Err(conflict) ==> conflict.path@ == file@ && *final(self) == *old(self),
    {
        let at: usize = match self.find(key) {
            Some(at) => at,
            None => {
                return Err(Conflict { path: file.to_owned() });
            },
        };
        if self.documents[at].base.is_some() || !same(
            self.documents[at].staged.as_str(),
            source,
        ) {
            return Err(Conflict { path: file.to_owned() });
        }
        let ghost before = *self;
        let ghost keys = self.order();
        let ghost marks = crate::text::views(self.conflicted@);
        let _ = self.keys.remove(at);
        let _ = self.documents.remove(at);
        match crate::text::find_name(&self.conflicted, key) {
            Some(mark) => {
                let _ = self.conflicted.remove(mark);
                proof {
                    lemma_removed_names(marks, mark as int);
                    assert(crate::text::views(self.conflicted@) =~= marks.remove(mark as int));
                }
            },
            None => {
                assert(before.conflicts().remove(key@) =~= before.conflicts());
            },
        }
        proof {
            lemma_removed_names(keys, at as int);
            assert(self.order() =~= keys.remove(at as int));
            let expected = before.staged().remove(key@);
            assert forall|k: Seq<char>| #[trigger] self.staged().contains_key(k) implies
                self.staged()[k] == expected[k] by {
                assert(keys.remove(at as int).contains(k));
                crate::text::place_finds(keys, k, 0);
                let i = crate::text::place(keys, k, 0)->0;
                assert(crate::text::place(keys.remove(at as int), k, 0)->0 == (if i < at {
                    i
                } else {
                    i - 1
                }));
                assert(i != at);
            }
            assert(self.staged() =~= expected);
            assert(self.conflicts() =~= before.conflicts().remove(key@));
        }
        Ok(())
    }
}

impl EditSession {
    /// A session with the same edits.
    pub fn duplicate(&self) -> (r: EditSession)
        requires
            self.wf(),
        ensures
            r.wf(),
            r.editing() == self.editing(),
            r.order() == self.order(),
            r.staged() == self.staged(),
            r.conflicts() == self.conflicts(),
    {
        let mut documents: Vec<StagedDocument> = Vec::new();
        let mut i: usize = 0;
        while i < self.documents.len()
            invariant
                i <= self.documents@.len(),
                documents@.len() == i,
                forall|k: int|
                    0 <= k < i ==> (#[trigger] documents@[k]).model() == self.documents@[k].model(),
            decreases self.documents@.len() - i,
        {
            let document = &self.documents[i];
            documents.push(
                StagedDocument {
                    file: document.file.clone(),
                    base: crate::text::clone_opt(&document.base),
                    staged: document.staged.clone(),
                },
            );
            i = i + 1;
        }
        let r = EditSession {
            enabled: self.enabled,
            keys: crate::text::clone_names(&self.keys),
            documents,
            conflicted: crate::text::clone_names(&self.conflicted),
        };
        proof {
            assert forall|k: Seq<char>| #[trigger] r.staged().contains_key(k) implies
                r.staged()[k] == self.staged()[k] by {
                crate::text::place_finds(self.order(), k, 0);
            }
            assert(r.staged() =~= self.staged());
        }
        r
    }
}

/// The viewer may be closed: nothing is staged that would be lost.
pub fn can_exit_without_losing_staged_edits(session: &EditSession) -> (r: bool)
    requires
        session.wf(),
    ensures
        r <==> forall|key: Seq<char>| #[trigger]
            session.staged().contains_key(key) ==> !session.staged()[key].dirty(),
{
    !session.has_pending()
}

} // verus!
