//! The edit session as the user meets it: its modes, what may be done in them, and what is said
//! of it.

use crate::double::Double;
use crate::edit_session::EditSession;
use crate::editor_history::History;
use crate::scene::{RenderCoverage, UnsupportedConstruct};
use crate::text::{to_decimal, to_digits};
use vstd::prelude::*;

verus! {

/// What the status says of the sheet that is shown.
pub struct SheetReport {
    /// How many warnings there are.
    pub warnings: usize,
    pub coverage: RenderCoverage,
    /// The drawing by another program is shown.
    pub fallback: bool,
    /// Why it is not.
    pub fallback_error: Option<String>,
}

/// The mode of the session.
pub open spec fn mode_text(editing: bool, pending: nat) -> Seq<char> {
    if !editing {
        "Read-only"@
    } else if pending == 0 {
        "Edit mode"@
    } else {
        "Edit mode · "@ + crate::text::decimal(pending) + " staged file(s)"@
    }
}

/// The first `n` kinds of items that are not drawn, each with how often it occurs.
pub open spec fn kinds_listed(constructs: Seq<UnsupportedConstruct>, n: nat) -> Seq<char>
    decreases n,
{
    if n == 0 {
        Seq::empty()
    } else {
        let item = constructs[n - 1].kind@ + "×"@ + crate::text::decimal(
            constructs[n - 1].count as nat,
        );
        if n == 1 {
            item
        } else {
            kinds_listed(constructs, (n - 1) as nat) + ", "@ + item
        }
    }
}

/// What is said when nothing else is to be said.
pub open spec fn status_text(
    editing: bool,
    pending: nat,
    pages: nat,
    sheet: Option<SheetReport>,
) -> Seq<char> {
    let base = mode_text(editing, pending) + " · Live · "@ + crate::text::decimal(pages)
        + " page(s)"@;
    match sheet {
        None => base,
        Some(report) => {
            let warned = if report.warnings == 0 {
                base
            } else {
                base + " · "@ + crate::text::decimal(report.warnings as nat) + " design warning(s)"@
            };
            let kinds = kinds_listed(
                report.coverage.unsupported@,
                report.coverage.unsupported@.len(),
            );
            if report.coverage.unsupported@.len() == 0 {
                warned
            } else if report.fallback {
                warned + " · KiCad SVG fallback active for this sheet"@
            } else {
                match report.fallback_error {
                    Some(error) => warned + " · native fallback ("@ + kinds
                        + ") · fallback error: "@ + error@,
                    None => warned + " · preparing KiCad SVG fallback: "@ + kinds,
                }
            }
        },
    }
}

fn list_kinds(constructs: &Vec<UnsupportedConstruct>) -> (r: String)
    ensures
        r@ == kinds_listed(constructs@, constructs@.len()),
{
    let mut r = String::new();
    let mut i: usize = 0;
    assert(r@ =~= kinds_listed(constructs@, 0));
    while i < constructs.len()
        invariant
            i <= constructs@.len(),
            r@ == kinds_listed(constructs@, i as nat),
        decreases constructs@.len() - i,
    {
        let mut item = constructs[i].kind.clone();
        item.append("×");
        item.append(to_decimal(constructs[i].count as u128).as_str());
        if i == 0 {
            r = item;
        } else {
            r.append(", ");
            r.append(item.as_str());
        }
        i = i + 1;
    }
    r
}

fn say_mode(session: &EditSession) -> (r: String)
    requires
        session.wf(),
    ensures
        r@ == mode_text(session.editing(), session.dirty().len()),
{
    if !session.is_enabled() {
        return "Read-only".to_owned();
    }
    let pending: usize = session.dirty_document_count();
    if pending == 0 {
        "Edit mode".to_owned()
    } else {
        let mut r = "Edit mode · ".to_owned();
        r.append(to_decimal(pending as u128).as_str());
        r.append(" staged file(s)");
        r
    }
}

/// What is said when nothing else is to be said: the mode, how many pages there are, and what
/// is amiss with the one that is shown.
pub fn live_status(session: &EditSession, pages: usize, sheet: &Option<SheetReport>) -> (r: String)
    requires
        session.wf(),
    ensures
        r@ == status_text(session.editing(), session.dirty().len(), pages as nat, *sheet),
{
    let mut r = say_mode(session);
    r.append(" · Live · ");
    r.append(to_decimal(pages as u128).as_str());
    r.append(" page(s)");
    if let Some(report) = sheet {
        if report.warnings != 0 {
            r.append(" · ");
            r.append(to_decimal(report.warnings as u128).as_str());
            r.append(" design warning(s)");
        }
        if report.coverage.unsupported.len() != 0 {
            if report.fallback {
                r.append(" · KiCad SVG fallback active for this sheet");
            } else {
                let kinds = list_kinds(&report.coverage.unsupported);
                match &report.fallback_error {
                    Some(error) => {
                        r.append(" · native fallback (");
                        r.append(kinds.as_str());
                        r.append(") · fallback error: ");
                        r.append(error.as_str());
                    },
                    None => {
                        r.append(" · preparing KiCad SVG fallback: ");
                        r.append(kinds.as_str());
                    },
                }
            }
        }
    }
    r
}

/// The schematic may be changed: editing is on. Else this is what is said.
pub fn require_edit_mode(session: &EditSession) -> (r: Result<(), String>)
    ensures
        r is Ok <==> session.editing(),
        r matches Err(e) ==> e@ == "Read-only · enable Edit mode before changing the schematic"@,
{
    if session.is_enabled() {
        Ok(())
    } else {
        Err("Read-only · enable Edit mode before changing the schematic".to_owned())
    }
}

/// Turns editing on or off, but not off while anything is staged.
pub fn toggle_edit_mode(session: &mut EditSession) -> (status: String)
    requires
        old(session).wf(),
    ensures
        final(session).wf(),
        final(session).order() == old(session).order(),
        final(session).staged() == old(session).staged(),
        final(session).conflicts() == old(session).conflicts(),
        ({
            let blocked = old(session).editing() && old(session).dirty().len() > 0;
            &&& final(session).editing() == (if blocked {
                true
            } else {
                !old(session).editing()
            })
            &&& status@ == (if blocked {
                "Commit or Discard staged changes before leaving Edit mode"@
            } else if old(session).editing() {
                "Read-only mode · schematic editing is disabled"@
            } else {
                "Edit mode · changes stay in memory until Commit"@
            })
        }),
{
    if session.is_enabled() && session.has_pending() {
        return "Commit or Discard staged changes before leaving Edit mode".to_owned();
    }
    let enabled = !session.is_enabled();
    session.set_enabled(enabled);
    if enabled {
        "Edit mode · changes stay in memory until Commit".to_owned()
    } else {
        "Read-only mode · schematic editing is disabled".to_owned()
    }
}

/// Why what is staged cannot be written.
#[derive(Clone, Copy, PartialEq, Eq, Structural, Debug)]
pub enum CommitBlock {
    NotEditing,
    NothingStaged,
    /// As many staged files were changed from outside.
    Conflicted(usize),
    /// A staged sheet is open in the editor.
    Locked,
    /// The project has no directory.
    Rootless,
}

/// Why what is staged cannot be written; nothing where it can be.
pub open spec fn commit_block(session: EditSession, locked: bool, rooted: bool) -> Option<CommitBlock> {
    if !session.editing() {
        Some(CommitBlock::NotEditing)
    } else if session.dirty().len() == 0 {
        Some(CommitBlock::NothingStaged)
    } else if session.conflicts().len() > 0 {
        Some(CommitBlock::Conflicted(session.conflicts().len() as usize))
    } else if locked {
        Some(CommitBlock::Locked)
    } else if !rooted {
        Some(CommitBlock::Rootless)
    } else {
        None
    }
}

/// What is said of it.
pub open spec fn block_text(block: CommitBlock) -> Seq<char> {
    match block {
        CommitBlock::NotEditing => "Enable Edit mode before committing"@,
        CommitBlock::NothingStaged => "Nothing staged to commit"@,
        CommitBlock::Conflicted(n) => "Commit blocked · "@ + crate::text::decimal(n as nat)
            + " staged file(s) changed externally; Discard and review the new source"@,
        CommitBlock::Locked => "Commit blocked · close staged sheets in KiCad first"@,
        CommitBlock::Rootless => "Commit blocked · project has no transaction directory"@,
    }
}

/// Whether what is staged can be written. `locked` says that a staged sheet is open in the
/// editor, `rooted` that the project has a directory.
pub fn check_commit(session: &EditSession, locked: bool, rooted: bool) -> (r: Result<(), String>)
    requires
        session.wf(),
    ensures
        match r {
            Ok(_) => commit_block(*session, locked, rooted) is None,
            Err(e) => commit_block(*session, locked, rooted) matches Some(block) && e@
                == block_text(block),
        },
{
    if !session.is_enabled() {
        return Err("Enable Edit mode before committing".to_owned());
    }
    if !session.has_pending() {
        return Err("Nothing staged to commit".to_owned());
    }
    if session.is_conflicted() {
        let mut e = "Commit blocked · ".to_owned();
        e.append(to_decimal(session.conflicted_count() as u128).as_str());
        e.append(" staged file(s) changed externally; Discard and review the new source");
        return Err(e);
    }
    if locked {
        return Err("Commit blocked · close staged sheets in KiCad first".to_owned());
    }
    if !rooted {
        return Err("Commit blocked · project has no transaction directory".to_owned());
    }
    Ok(())
}

/// No text is written over one that was changed from outside, nor while a staged sheet is open
/// elsewhere.
pub proof fn commits_never_overwrite(session: EditSession, locked: bool, rooted: bool)
    requires
        commit_block(session, locked, rooted) is None,
    ensures
        session.editing(),
        session.conflicts().len() == 0,
        !locked,
        rooted,
{
}

/// What is said once the files are written, and how the change is called.
pub struct Committed {
    pub status: String,
    pub label: String,
}

/// What follows when the files were written, or could not be: the session and its history are
/// emptied, or left as they are.
pub fn finish_commit<C>(
    session: &mut EditSession,
    history: &mut History<C>,
    outcome: Result<(), String>,
) -> (r: Result<Committed, String>)
    requires
        old(session).wf(),
        old(history).wf(),
    ensures
        final(session).wf(),
        final(history).wf(),
        final(session).editing() == old(session).editing(),
        match (outcome, r) {
            (Ok(_), Ok(done)) => {
                let edits = crate::text::decimal(old(history).undo@.len());
                &&& done.label@ == "Committed "@ + edits + " staged edit(s)"@
                &&& done.status@ == "Committed "@ + edits + " staged edit(s) across "@
                    + crate::text::decimal(old(session).dirty().len()) + " file(s) atomically"@
                &&& final(session).staged() == Map::<
                    Seq<char>,
                    crate::edit_session::Staged,
                >::empty()
                &&& final(session).conflicts() == Set::<Seq<char>>::empty()
                &&& final(history).undo@.len() == 0
                &&& final(history).redo@.len() == 0
            },
            (Err(error), Err(status)) => {
                &&& status@ == "Commit stopped safely: "@ + error@
                    + " · staged changes remain available"@
                &&& *final(session) == *old(session)
                &&& *final(history) == *old(history)
            },
            _ => false,
        },
{
    match outcome {
        Ok(_) => {
            let edits = to_decimal(history.undo.len() as u128);
            let files: usize = session.dirty_document_count();
            let mut label = "Committed ".to_owned();
            label.append(edits.as_str());
            label.append(" staged edit(s)");
            let mut status = label.clone();
            status.append(" across ");
            status.append(to_decimal(files as u128).as_str());
            status.append(" file(s) atomically");
            proof {
                assert(status@ =~= "Committed "@ + edits@ + " staged edit(s) across "@
                    + crate::text::decimal(files as nat) + " file(s) atomically"@) by {
                    reveal_strlit(" staged edit(s)");
                    reveal_strlit(" across ");
                    reveal_strlit(" staged edit(s) across ");
                }
            }
            session.clear();
            history.undo.clear();
            history.redo.clear();
            Ok(Committed { status, label })
        },
        Err(error) => {
            let mut status = "Commit stopped safely: ".to_owned();
            status.append(error.as_str());
            status.append(" · staged changes remain available");
            Err(status)
        },
    }
}

/// What follows when staged changes are thrown away.
pub struct Discarded {
    /// The files to load again.
    pub files: Vec<String>,
    /// They were changed from outside.
    pub changed_outside: bool,
    pub status: String,
}

/// Throws away what is staged, and forgets what could be undone. What is loaded again counts as
/// an external change where there was a conflict.
pub fn discard_edit_session<C>(session: &mut EditSession, history: &mut History<C>) -> (r: Result<
    Discarded,
    String,
>)
    requires
        old(session).wf(),
        old(history).wf(),
    ensures
        final(session).wf(),
        final(history).wf(),
        final(session).editing() == old(session).editing(),
        r is Ok <==> old(session).dirty().len() > 0,
        match r {
            Ok(done) => {
                &&& done.status@
                    == "Discarded all staged changes · durable files were untouched"@
                &&& crate::text::views(done.files@) == old(session).dirty().map_values(
                    |d: crate::edit_session::Staged| d.file,
                )
                &&& done.changed_outside == (old(session).conflicts().len() > 0)
                &&& final(session).staged() == Map::<
                    Seq<char>,
                    crate::edit_session::Staged,
                >::empty()
                &&& final(session).conflicts() == Set::<Seq<char>>::empty()
                &&& final(history).undo@.len() == 0
                &&& final(history).redo@.len() == 0
            },
            Err(status) => {
                &&& status@ == "Nothing staged to discard"@
                &&& *final(session) == *old(session)
                &&& *final(history) == *old(history)
            },
        },
{
    if !session.has_pending() {
        return Err("Nothing staged to discard".to_owned());
    }
    let files = dirty_files(session);
    let changed_outside = session.is_conflicted();
    session.clear();
    history.undo.clear();
    history.redo.clear();
    Ok(
        Discarded {
            files,
            changed_outside,
            status: "Discarded all staged changes · durable files were untouched".to_owned(),
        },
    )
}

/// The files of the documents that differ from what they are based on.
pub fn dirty_files(session: &EditSession) -> (r: Vec<String>)
    requires
        session.wf(),
    ensures
        crate::text::views(r@) == session.dirty().map_values(
            |d: crate::edit_session::Staged| d.file,
        ),
{
    let dirty = session.dirty_documents();
    let ghost all = session.dirty();
    let mut r: Vec<String> = Vec::new();
    let mut i: usize = 0;
    while i < dirty.len()
        invariant
            i <= dirty@.len(),
            dirty@.map_values(|d: &crate::edit_session::StagedDocument| d.model()) == all,
            r@.len() == i,
            forall|k: int| 0 <= k < i ==> (#[trigger] r@[k])@ == all[k].file,
        decreases dirty@.len() - i,
    {
        assert(all[i as int] == dirty@[i as int].model());
        r.push(dirty[i].file.clone());
        i = i + 1;
    }
    proof {
        assert(crate::text::views(r@) =~= all.map_values(
            |d: crate::edit_session::Staged| d.file,
        ));
    }
    r
}

/// A number with two decimals.
pub open spec fn fixed2_text(value: Double) -> Seq<char> {
    let n = crate::double::parts_of_one(value.mantissa as nat, value.exponent as int, 100);
    let sign = if value.negative {
        "-"@
    } else {
        ""@
    };
    sign + crate::text::decimal(n / 100) + "."@ + crate::text::digits(n % 100, 2)
}

fn format_fixed2(value: Double) -> (r: String)
    requires
        value.wf(),
        value.exponent <= 60,
    ensures
        r@ == fixed2_text(value),
{
    let n: u128 = value.to_parts_of_one(100);
    let mut r = if value.negative {
        "-".to_owned()
    } else {
        "".to_owned()
    };
    r.append(to_decimal(n / 100).as_str());
    r.append(".");
    r.append(to_digits((n % 100) as u64, 2).as_str());
    r
}

/// How items are turned over.
#[derive(Clone, Copy, PartialEq, Eq, Structural, Debug)]
pub enum Transform {
    Rotate,
    MirrorX,
    MirrorY,
}

impl Transform {
    /// What it is called.
    pub open spec fn spec_name(self) -> Seq<char> {
        match self {
            Transform::Rotate => "Rotate"@,
            _ => "Mirror"@,
        }
    }

    pub fn name(self) -> (r: &'static str)
        ensures
            r@ == self.spec_name(),
    {
        match self {
            Transform::Rotate => "Rotate",
            _ => "Mirror",
        }
    }

    /// What it is called once done.
    pub open spec fn spec_past(self) -> Seq<char> {
        match self {
            Transform::Rotate => "Rotated"@,
            _ => "Mirrored"@,
        }
    }

    pub fn past(self) -> (r: &'static str)
        ensures
            r@ == self.spec_past(),
    {
        match self {
            Transform::Rotate => "Rotated",
            _ => "Mirrored",
        }
    }

    /// What it can be done to.
    pub open spec fn spec_items(self) -> Seq<char> {
        match self {
            Transform::Rotate => "symbol(s) or bus entry/entries"@,
            _ => "symbol(s)"@,
        }
    }

    pub fn items(self) -> (r: &'static str)
        ensures
            r@ == self.spec_items(),
    {
        match self {
            Transform::Rotate => "symbol(s) or bus entry/entries",
            _ => "symbol(s)",
        }
    }
}

/// A change that is staged.
pub enum Operation {
    /// A property of an item, by its name.
    Property(String),
    /// As many items, by so many millimetres across and down.
    Move(usize, Double, Double),
    /// As many items.
    Delete(usize),
    Transform(Transform, usize),
    Duplicate,
    /// A wire, or a bus.
    Wire(bool),
    /// An item of the given description.
    Insert(String),
    /// A pin of a sheet, by its name and its kind.
    SheetPin(String, String),
    /// A step back or forth in the history, by its label.
    History(String),
}

/// What came of staging a change.
pub enum StageOutcome {
    /// It is staged, on a text that had changed meanwhile or on the one it was made for.
    Staged(bool),
    /// The text had changed too much.
    Conflict(String),
    Failed(String),
}

impl Operation {
    pub open spec fn wf(self) -> bool {
        self matches Operation::Move(_, dx, dy) ==> dx.wf() && dx.exponent <= 60 && dy.wf()
            && dy.exponent <= 60
    }

    /// What is said when the change is staged.
    pub open spec fn staged_text(self, rebased: bool) -> Seq<char> {
        let safely = if rebased {
            " · safely rebased"@
        } else {
            ""@
        };
        match self {
            Operation::Property(name) => "Staged "@ + name@ + " · press Commit to write"@,
            Operation::Move(count, dx, dy) => "Staged"@ + safely + " · moved "@
                + crate::text::decimal(count as nat) + " item(s) by ("@ + fixed2_text(dx) + ", "@
                + fixed2_text(dy) + ") mm · press Commit"@,
            Operation::Delete(count) => "Staged deletion of "@ + crate::text::decimal(count as nat)
                + " item(s) · Undo restores them · press Commit"@,
            Operation::Transform(t, count) => "Staged · "@ + t.spec_past() + " "@
                + crate::text::decimal(count as nat) + " "@ + t.spec_items() + " · press Commit"@,
            Operation::Duplicate => "Staged duplicate · reference left unannotated · press Commit"@,
            Operation::Wire(is_bus) => if is_bus {
                "Staged bus · press Commit to write"@
            } else {
                "Staged wire · press Commit to write"@
            },
            Operation::Insert(what) => "Staged "@ + what@ + " · press Commit to write"@,
            Operation::SheetPin(name, kind) => "Staged "@ + name@ + " "@ + kind@
                + " sheet pin · press Commit"@,
            Operation::History(label) => "Staged "@ + label@ + safely + " · press Commit"@,
        }
    }

    /// What is said when the text had changed too much.
    pub open spec fn conflict_text(self, error: Seq<char>) -> Seq<char> {
        match self {
            Operation::Property(_) => "Property staging conflict: "@ + error,
            Operation::Move(_, _, _) =>
                "Staging conflict: the selected item changed; no durable file was written"@,
            Operation::Delete(_) => "Delete staging conflict: "@ + error,
            Operation::Transform(t, _) => t.spec_name() + " staging conflict: "@ + error,
            Operation::Duplicate => "Duplicate staging conflict: "@ + error,
            Operation::Wire(is_bus) => if is_bus {
                "Bus staging conflict: "@ + error
            } else {
                "Wire staging conflict: "@ + error
            },
            Operation::Insert(what) => what@ + " staging conflict: "@ + error,
            Operation::SheetPin(_, _) => "Sheet-pin staging conflict: "@ + error,
            Operation::History(_) => "Staged history conflict: "@ + error,
        }
    }

    /// What is said when the change could not be staged.
    pub open spec fn failure_text(self, error: Seq<char>) -> Seq<char> {
        match self {
            Operation::Property(_) => "Could not stage property: "@ + error,
            Operation::Move(_, _, _) => "Could not stage edit: "@ + error,
            Operation::Delete(_) => "Could not stage deletion: "@ + error,
            Operation::Transform(t, _) => "Could not stage "@ + t.spec_name() + ": "@ + error,
            Operation::Duplicate => "Could not stage duplicate: "@ + error,
            Operation::Wire(is_bus) => if is_bus {
                "Could not stage bus: "@ + error
            } else {
                "Could not stage wire: "@ + error
            },
            Operation::Insert(what) => "Could not stage "@ + what@ + ": "@ + error,
            Operation::SheetPin(_, _) => "Could not stage sheet pin: "@ + error,
            Operation::History(_) => "Could not stage history operation: "@ + error,
        }
    }

    fn say_staged(&self, rebased: bool) -> (r: String)
        requires
            self.wf(),
        ensures
            r@ == self.staged_text(rebased),
    {
        let safely = if rebased {
            " · safely rebased"
        } else {
            ""
        };
        let mut r = "Staged".to_owned();
        match self {
            Operation::Property(name) => {
                let mut r = "Staged ".to_owned();
                r.append(name.as_str());
                r.append(" · press Commit to write");
                r
            },
            Operation::Move(count, dx, dy) => {
                r.append(safely);
                r.append(" · moved ");
                r.append(to_decimal(*count as u128).as_str());
                r.append(" item(s) by (");
                r.append(format_fixed2(*dx).as_str());
                r.append(", ");
                r.append(format_fixed2(*dy).as_str());
                r.append(") mm · press Commit");
                r
            },
            Operation::Delete(count) => {
                let mut r = "Staged deletion of ".to_owned();
                r.append(to_decimal(*count as u128).as_str());
                r.append(" item(s) · Undo restores them · press Commit");
                r
            },
            Operation::Transform(t, count) => {
                let mut r = "Staged · ".to_owned();
                r.append(t.past());
                r.append(" ");
                r.append(to_decimal(*count as u128).as_str());
                r.append(" ");
                r.append(t.items());
                r.append(" · press Commit");
                r
            },
            Operation::Duplicate =>
                "Staged duplicate · reference left unannotated · press Commit".to_owned(),
            Operation::Wire(is_bus) => if *is_bus {
                "Staged bus · press Commit to write".to_owned()
            } else {
                "Staged wire · press Commit to write".to_owned()
            },
            Operation::Insert(what) => {
                let mut r = "Staged ".to_owned();
                r.append(what.as_str());
                r.append(" · press Commit to write");
                r
            },
            Operation::SheetPin(name, kind) => {
                let mut r = "Staged ".to_owned();
                r.append(name.as_str());
                r.append(" ");
                r.append(kind.as_str());
                r.append(" sheet pin · press Commit");
                r
            },
            Operation::History(label) => {
                let mut r = "Staged ".to_owned();
                r.append(label.as_str());
                r.append(safely);
                r.append(" · press Commit");
                r
            },
        }
    }

    fn say_conflict(&self, error: &str) -> (r: String)
        ensures
            r@ == self.conflict_text(error@),
    {
        let mut r = match self {
            Operation::Property(_) => "Property staging conflict: ".to_owned(),
            Operation::Move(_, _, _) => {
                return "Staging conflict: the selected item changed; no durable file was written".to_owned();
            },
            Operation::Delete(_) => "Delete staging conflict: ".to_owned(),
            Operation::Transform(t, _) => {
                let mut r = t.name().to_owned();
                r.append(" staging conflict: ");
                r
            },
            Operation::Duplicate => "Duplicate staging conflict: ".to_owned(),
            Operation::Wire(is_bus) => if *is_bus {
                "Bus staging conflict: ".to_owned()
            } else {
                "Wire staging conflict: ".to_owned()
            },
            Operation::Insert(what) => {
                let mut r = what.clone();
                r.append(" staging conflict: ");
                r
            },
            Operation::SheetPin(_, _) => "Sheet-pin staging conflict: ".to_owned(),
            Operation::History(_) => "Staged history conflict: ".to_owned(),
        };
        r.append(error);
        r
    }

    fn say_failure(&self, error: &str) -> (r: String)
        ensures
            r@ == self.failure_text(error@),
    {
        let mut r = match self {
            Operation::Property(_) => "Could not stage property: ".to_owned(),
            Operation::Move(_, _, _) => "Could not stage edit: ".to_owned(),
            Operation::Delete(_) => "Could not stage deletion: ".to_owned(),
            Operation::Transform(t, _) => {
                let mut r = "Could not stage ".to_owned();
                r.append(t.name());
                r.append(": ");
                r
            },
            Operation::Duplicate => "Could not stage duplicate: ".to_owned(),
            Operation::Wire(is_bus) => if *is_bus {
                "Could not stage bus: ".to_owned()
            } else {
                "Could not stage wire: ".to_owned()
            },
            Operation::Insert(what) => {
                let mut r = "Could not stage ".to_owned();
                r.append(what.as_str());
                r.append(": ");
                r
            },
            Operation::SheetPin(_, _) => "Could not stage sheet pin: ".to_owned(),
            Operation::History(_) => "Could not stage history operation: ".to_owned(),
        };
        r.append(error);
        r
    }

    /// What is said of staging the change.
    pub fn report(&self, outcome: &StageOutcome) -> (r: String)
        requires
            self.wf(),
        ensures
            r@ == (match *outcome {
                StageOutcome::Staged(rebased) => self.staged_text(rebased),
                StageOutcome::Conflict(e) => self.conflict_text(e@),
                StageOutcome::Failed(e) => self.failure_text(e@),
            }),
    {
        match outcome {
            StageOutcome::Staged(rebased) => self.say_staged(*rebased),
            StageOutcome::Conflict(e) => self.say_conflict(e.as_str()),
            StageOutcome::Failed(e) => self.say_failure(e.as_str()),
        }
    }
}

} // verus!
