//! Undo and redo.
//!
//! An entry of the history holds the commands that take a change back, or make it again, and
//! the files that the change created. What a command does to a text is not this module's
//! business; it carries the commands, decides what is done with them and what is remembered.

use crate::edit_session::EditSession;
use vstd::prelude::*;

verus! {

/// How many entries each direction remembers.
pub const HISTORY_LIMIT: usize = 200;

/// A command on the text of a document: what it is called, the items that it changes, and what
/// it does.
pub struct Command<C> {
    pub label: String,
    pub items: Vec<String>,
    pub body: C,
}

pub struct HistoryCommand<C> {
    pub file: String,
    pub command: Command<C>,
}

/// A file that a change created, with its text.
pub struct HistoryCreation {
    pub file: String,
    pub source: String,
}

/// One step of the history.
pub struct HistoryEntry<C> {
    /// The directory in which a change of several files is carried out.
    pub journal_root: Option<String>,
    pub commands: Vec<HistoryCommand<C>>,
    pub creations: Vec<HistoryCreation>,
}

impl<C> HistoryEntry<C> {
    /// A step that changes one document.
    pub fn single(file: String, command: Command<C>) -> (r: HistoryEntry<C>)
        ensures
            r.journal_root is None,
            r.commands@ == seq![HistoryCommand { file, command }],
            r.creations@.len() == 0,
    {
        let mut commands: Vec<HistoryCommand<C>> = Vec::new();
        commands.push(HistoryCommand { file, command });
        HistoryEntry { journal_root: None, commands, creations: Vec::new() }
    }

    /// A step that changes several documents.
    pub fn group(journal_root: String, commands: Vec<HistoryCommand<C>>) -> (r: HistoryEntry<C>)
        ensures
            r.journal_root == Some(journal_root),
            r.commands == commands,
            r.creations@.len() == 0,
    {
        HistoryEntry { journal_root: Some(journal_root), commands, creations: Vec::new() }
    }

    /// A step that changes several documents and creates files.
    pub fn group_with_creations(
        journal_root: String,
        commands: Vec<HistoryCommand<C>>,
        creations: Vec<HistoryCreation>,
    ) -> (r: HistoryEntry<C>)
        ensures
            r == (HistoryEntry { journal_root: Some(journal_root), commands, creations }),
    {
        HistoryEntry { journal_root: Some(journal_root), commands, creations }
    }

    /// The step has to be carried out as a whole or not at all.
    pub open spec fn spec_is_grouped(self) -> bool {
        self.journal_root is Some || self.commands@.len() > 1 || self.creations@.len() > 0
    }

    pub fn is_grouped(&self) -> (r: bool)
        ensures
            r == self.spec_is_grouped(),
    {
        self.journal_root.is_some() || self.commands.len() > 1 || self.creations.len() > 0
    }

    /// What a step of several documents is called: as its first command is.
    pub open spec fn spec_label(self) -> Seq<char> {
        if self.commands@.len() > 0 {
            self.commands@[0].command.label@
        } else {
            "grouped edit"@
        }
    }

    pub fn label(&self) -> (r: String)
        ensures
            r@ == self.spec_label(),
    {
        if self.commands.len() > 0 {
            self.commands[0].command.label.clone()
        } else {
            "grouped edit".to_owned()
        }
    }

    /// The items that the first `n` commands change.
    pub open spec fn items_upto(self, n: nat) -> Seq<Seq<char>>
        decreases n,
    {
        if n == 0 {
            Seq::empty()
        } else {
            self.items_upto((n - 1) as nat) + crate::text::views(
                self.commands@[n - 1].command.items@,
            )
        }
    }

    /// The items that the step changes, one command after the other.
    pub fn changed_items(&self) -> (r: Vec<String>)
        ensures
            crate::text::views(r@) == self.items_upto(self.commands@.len()),
    {
        let mut r: Vec<String> = Vec::new();
        let mut i: usize = 0;
        assert(crate::text::views(r@) =~= Seq::empty());
        while i < self.commands.len()
            invariant
                i <= self.commands@.len(),
                crate::text::views(r@) == self.items_upto(i as nat),
            decreases self.commands@.len() - i,
        {
            let ghost before = crate::text::views(r@);
            let mut items = crate::text::clone_names(&self.commands[i].command.items);
            let ghost added = crate::text::views(items@);
            r.append(&mut items);
            assert(crate::text::views(r@) =~= before + added);
            i = i + 1;
        }
        r
    }
}

/// `stack` with one more entry on top, and without its oldest where it is full.
pub open spec fn pushed<T>(stack: Seq<T>, entry: T) -> Seq<T> {
    if stack.len() == HISTORY_LIMIT {
        stack.skip(1).push(entry)
    } else {
        stack.push(entry)
    }
}

/// Puts an entry on top, at the cost of the oldest where the stack is full.
pub fn push_history<C>(stack: &mut Vec<HistoryEntry<C>>, entry: HistoryEntry<C>)
    ensures
        final(stack)@ == pushed(old(stack)@, entry),
{
    if stack.len() == HISTORY_LIMIT {
        let ghost before = stack@;
        let _ = stack.remove(0);
        assert(stack@ =~= before.skip(1));
    }
    stack.push(entry);
}

/// What can be taken back and what can be made again.
pub struct History<C> {
    pub undo: Vec<HistoryEntry<C>>,
    pub redo: Vec<HistoryEntry<C>>,
}

/// What taking a step back, or making it again, begins with.
pub enum HistoryStep<C> {
    /// Editing is off.
    NotEditing,
    /// There is no step to take.
    Nothing,
    /// The step holds no commands.
    Empty,
    /// A step of several documents without a directory to carry it out in: it stays where it
    /// was.
    Rootless,
    /// One command on one document.
    Single(HistoryCommand<C>),
    /// A step of several documents.
    Grouped(HistoryEntry<C>),
}

impl<C> History<C> {
    pub open spec fn wf(self) -> bool {
        self.undo@.len() <= HISTORY_LIMIT && self.redo@.len() <= HISTORY_LIMIT
    }

    /// The stack that steps in a direction are taken from.
    pub open spec fn from(self, undoing: bool) -> Seq<HistoryEntry<C>> {
        if undoing {
            self.undo@
        } else {
            self.redo@
        }
    }

    pub fn new() -> (r: History<C>)
        ensures
            r.wf(),
            r.undo@.len() == 0,
            r.redo@.len() == 0,
    {
        History { undo: Vec::new(), redo: Vec::new() }
    }

    /// Remembers a change that was just made: it can be taken back, and what could be made again
    /// before no longer can.
    pub fn record(&mut self, entry: HistoryEntry<C>)
        requires
            old(self).wf(),
        ensures
            final(self).wf(),
            final(self).undo@ == pushed(old(self).undo@, entry),
            final(self).redo@.len() == 0,
            final(self).from(true).len() > 0 && final(self).from(true).last() == entry,
            final(self).from(false).len() == 0,
    {
        push_history(&mut self.undo, entry);
        self.redo.clear();
    }

    /// Takes the next step in a direction, where there is one and editing is on.
    pub fn take(&mut self, editing: bool, undoing: bool) -> (r: HistoryStep<C>)
        requires
            old(self).wf(),
        ensures
            final(self).wf(),
            final(self).from(!undoing) == old(self).from(!undoing),
            match r {
                HistoryStep::NotEditing => !editing && *final(self) == *old(self),
                HistoryStep::Nothing => editing && old(self).from(undoing).len() == 0
                    && final(self).from(undoing).len() == 0,
                HistoryStep::Rootless => editing && old(self).from(undoing).len() > 0 && old(
                    self,
                ).from(undoing).last().spec_is_grouped() && old(self).from(
                    undoing,
                ).last().journal_root is None && final(self).from(undoing) == old(self).from(
                    undoing,
                ),
                HistoryStep::Grouped(entry) => editing && old(self).from(undoing).len() > 0
                    && entry == old(self).from(undoing).last() && entry.spec_is_grouped()
                    && entry.journal_root is Some && final(self).from(undoing) == old(self).from(
                    undoing,
                ).drop_last(),
                HistoryStep::Single(part) => editing && old(self).from(undoing).len() > 0
                    && !old(self).from(undoing).last().spec_is_grouped() && old(self).from(
                    undoing,
                ).last().commands@ == seq![part] && final(self).from(undoing) == old(self).from(
                    undoing,
                ).drop_last(),
                HistoryStep::Empty => editing && old(self).from(undoing).len() > 0 && !old(
                    self,
                ).from(undoing).last().spec_is_grouped() && old(self).from(
                    undoing,
                ).last().commands@.len() == 0 && final(self).from(undoing) == old(self).from(
                    undoing,
                ).drop_last(),
            },
    {
        if !editing {
            return HistoryStep::NotEditing;
        }
        let taken: Option<HistoryEntry<C>> = if undoing {
            self.undo.pop()
        } else {
            self.redo.pop()
        };
        let entry = match taken {
            Some(entry) => entry,
            None => {
                return HistoryStep::Nothing;
            },
        };
        if entry.is_grouped() {
            if entry.journal_root.is_none() {
                self.restore(undoing, entry);
                assert(self.from(undoing) =~= old(self).from(undoing));
                return HistoryStep::Rootless;
            }
            return HistoryStep::Grouped(entry);
        }
        let mut commands = entry.commands;
        match commands.pop() {
            Some(part) => {
                assert(entry.commands@ =~= seq![part]);
                HistoryStep::Single(part)
            },
            None => HistoryStep::Empty,
        }
    }

    /// Puts a step that could not be taken back where it was.
    pub fn restore(&mut self, undoing: bool, entry: HistoryEntry<C>)
        requires
            old(self).wf(),
        ensures
            final(self).wf(),
            final(self).from(undoing) == pushed(old(self).from(undoing), entry),
            final(self).from(!undoing) == old(self).from(!undoing),
    {
        if undoing {
            push_history(&mut self.undo, entry);
        } else {
            push_history(&mut self.redo, entry);
        }
    }

    /// Remembers the inverse of a step that was taken, in the other direction.
    pub fn settle(&mut self, undoing: bool, inverse: HistoryEntry<C>)
        requires
            old(self).wf(),
        ensures
            final(self).wf(),
            final(self).from(!undoing) == pushed(old(self).from(!undoing), inverse),
            final(self).from(undoing) == old(self).from(undoing),
    {
        self.restore(!undoing, inverse)
    }
}

/// Taking a step and putting it back leaves the stacks as they were.
pub proof fn restoring_undoes_taking<C>(stack: Seq<HistoryEntry<C>>)
    requires
        0 < stack.len() <= HISTORY_LIMIT,
    ensures
        pushed(stack.drop_last(), stack.last()) == stack,
{
    assert(stack.drop_last().push(stack.last()) =~= stack);
}

/// A stack never grows past its limit, and below it forgets nothing.
pub proof fn history_is_bounded<T>(stack: Seq<T>, entry: T)
    requires
        stack.len() <= HISTORY_LIMIT,
    ensures
        pushed(stack, entry).len() <= HISTORY_LIMIT,
        pushed(stack, entry).last() == entry,
        stack.len() < HISTORY_LIMIT ==> pushed(stack, entry).drop_last() == stack,
        stack.len() == HISTORY_LIMIT ==> pushed(stack, entry).drop_last() == stack.skip(1),
{
    assert(stack.push(entry).drop_last() =~= stack);
    assert(stack.skip(1).push(entry).drop_last() =~= stack.skip(1));
}

/// Why a step of several documents is not staged.
#[derive(Clone, Copy, PartialEq, Eq, Structural, Debug)]
pub enum GroupFailure {
    /// A document cannot be read.
    Unreadable,
    /// A command was rejected.
    Rejected,
    /// A document is not the one that the session holds.
    Conflict,
    /// A file to be created is there, or one to be taken back is not.
    Creation,
}

/// A step of several documents on its way into a session. Nothing of it reaches the session
/// that it started from before all of it is staged.
pub struct GroupStaging<C> {
    pub candidate: EditSession,
    pub inverses: Vec<HistoryCommand<C>>,
    pub rendered: Vec<(String, String)>,
}

impl<C> GroupStaging<C> {
    /// Starts from a copy of a session.
    pub fn new(session: &EditSession) -> (r: GroupStaging<C>)
        requires
            session.wf(),
        ensures
            r.candidate.wf(),
            r.candidate.editing() == session.editing(),
            r.candidate.order() == session.order(),
            r.candidate.staged() == session.staged(),
            r.candidate.conflicts() == session.conflicts(),
            r.inverses@.len() == 0,
            r.rendered@.len() == 0,
    {
        GroupStaging { candidate: session.duplicate(), inverses: Vec::new(), rendered: Vec::new() }
    }

    /// Stages one command: `current` is the text that the document has, `prepared` what the
    /// command makes of it and the command that takes it back.
    pub fn stage(
        &mut self,
        key: String,
        file: String,
        current: Option<String>,
        prepared: Option<(String, Command<C>)>,
    ) -> (r: Result<(), GroupFailure>)
        requires
            old(self).candidate.wf(),
        ensures
            final(self).candidate.wf(),
            final(self).candidate.editing() == old(self).candidate.editing(),
            final(self).candidate.conflicts() == old(self).candidate.conflicts(),
            match (r, current, prepared) {
                (Err(GroupFailure::Unreadable), current, _) => current is None,
                (Err(GroupFailure::Rejected), current, prepared) => current is Some && prepared
                    is None,
                (Err(GroupFailure::Conflict), Some(current), Some(_)) => old(
                    self,
                ).candidate.staged().contains_key(key@) && old(
                    self,
                ).candidate.staged()[key@].staged != current@,
                (Ok(_), Some(current), Some((replacement, inverse))) => {
                    &&& !(old(self).candidate.staged().contains_key(key@) && old(
                        self,
                    ).candidate.staged()[key@].staged != current@)
                    &&& final(self).candidate.staged() == crate::edit_session::replaced(
                        old(self).candidate.staged(),
                        key@,
                        file@,
                        current@,
                        replacement@,
                    )
                    &&& final(self).inverses@.len() == old(self).inverses@.len() + 1
                    &&& final(self).inverses@.drop_last() == old(self).inverses@
                    &&& final(self).inverses@.last().file@ == file@
                    &&& final(self).inverses@.last().command == inverse
                    &&& final(self).rendered@.len() == old(self).rendered@.len() + 1
                    &&& final(self).rendered@.drop_last() == old(self).rendered@
                    &&& final(self).rendered@.last().0@ == file@
                    &&& final(self).rendered@.last().1@ == replacement@
                },
                _ => false,
            },
    {
        let current = match current {
            Some(current) => current,
            None => {
                return Err(GroupFailure::Unreadable);
            },
        };
        let (replacement, inverse) = match prepared {
            Some(prepared) => prepared,
            None => {
                return Err(GroupFailure::Rejected);
            },
        };
        match self.candidate.stage_replacement(
            key,
            file.as_str(),
            current.as_str(),
            replacement.clone(),
        ) {
            Ok(_) => {},
            Err(_) => {
                return Err(GroupFailure::Conflict);
            },
        }
        let ghost inverses = self.inverses@;
        let ghost rendered = self.rendered@;
        self.inverses.push(HistoryCommand { file: file.clone(), command: inverse });
        self.rendered.push((file, replacement));
        proof {
            assert(self.inverses@.drop_last() =~= inverses);
            assert(self.rendered@.drop_last() =~= rendered);
        }
        Ok(())
    }

    /// Takes back, or stages again, a file that the step created.
    pub fn stage_creation(&mut self, undoing: bool, key: String, creation: &HistoryCreation) -> (r:
        Result<(), GroupFailure>)
        requires
            old(self).candidate.wf(),
        ensures
            final(self).candidate.wf(),
            final(self).candidate.editing() == old(self).candidate.editing(),
            final(self).inverses == old(self).inverses,
            final(self).rendered == old(self).rendered,
            final(self).candidate.conflicts() == (if undoing && r is Ok {
                old(self).candidate.conflicts().remove(key@)
            } else {
                old(self).candidate.conflicts()
            }),
            r is Err ==> r == Err::<(), GroupFailure>(GroupFailure::Creation)
                && final(self).candidate.staged() == old(self).candidate.staged(),
            ({
                let staged = old(self).candidate.staged();
                if undoing {
                    &&& r is Ok <==> staged.contains_key(key@) && staged[key@].base is None
                        && staged[key@].staged == creation.source@
                    &&& r is Ok ==> final(self).candidate.staged() == staged.remove(key@)
                } else {
                    &&& r is Ok <==> !staged.contains_key(key@)
                    &&& r is Ok ==> final(self).candidate.staged() == staged.insert(
                        key@,
                        crate::edit_session::Staged {
                            file: creation.file@,
                            base: None,
                            staged: creation.source@,
                        },
                    )
                }
            }),
    {
        let done: bool = if undoing {
            match self.candidate.cancel_creation(
                key.as_str(),
                creation.file.as_str(),
                creation.source.as_str(),
            ) {
                Ok(_) => true,
                Err(_) => false,
            }
        } else {
            match self.candidate.stage_creation(
                key,
                creation.file.as_str(),
                creation.source.clone(),
            ) {
                Ok(_) => true,
                Err(_) => false,
            }
        };
        if done {
            Ok(())
        } else {
            Err(GroupFailure::Creation)
        }
    }
}

} // verus!
