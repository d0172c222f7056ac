//! Staging a new sheet: the checks that its dialog goes through, and what is staged of it.

use crate::dialogs::SheetEdit;
use crate::edit_session::{Conflict, EditSession};
use crate::editor_history::{Command, History, HistoryCommand, HistoryCreation, HistoryEntry};
use crate::scene::{ObjectKind, ObjectProperty};
use crate::scene_builder::SceneObject;
use crate::sheet_facts::check_child_path;
use crate::text::{chars_of, same, string_of, to_decimal, trim};
use vstd::prelude::*;

verus! {

/// Why a new sheet is not staged.
pub enum SheetRefusal {
    /// The name or the file is missing.
    Incomplete,
    /// The file does not lie below the schematic's directory.
    BadPath,
    /// No sheet is shown.
    NoSheet,
    /// A sheet of that name is there.
    NameTaken(String),
    /// The schematic that is shown has no directory.
    NoDirectory,
    /// The directory of the new sheet is not there.
    ChildDirectoryMissing,
    SelfReference,
    ChildUnreadable(String),
    ChildNotRegular,
    /// The schematic does not say where it is used.
    Metadata(String),
    Creation(String),
    /// Nothing would be inserted.
    NoChange,
    PatchConflict(String),
    PatchRejected(String),
    ParentConflict(String),
    Staging(String),
}

impl SheetRefusal {
    /// What is said; nothing where no sheet is shown.
    pub open spec fn spec_text(self) -> Option<Seq<char>> {
        match self {
            SheetRefusal::Incomplete => Some(
                "Hierarchical sheet needs both a name and child filename"@,
            ),
            SheetRefusal::BadPath => Some(
                "Child file must be a relative .kicad_sch path without parent traversal"@,
            ),
            SheetRefusal::NoSheet => None,
            SheetRefusal::NameTaken(name) => Some(
                "A hierarchical sheet named ‘"@ + name@ + "’ already exists"@,
            ),
            SheetRefusal::NoDirectory => Some("Parent schematic has no directory"@),
            SheetRefusal::ChildDirectoryMissing => Some(
                "The child sheet directory does not exist"@,
            ),
            SheetRefusal::SelfReference => Some("A sheet cannot reference itself"@),
            SheetRefusal::ChildUnreadable(e) => Some("Could not inspect child sheet: "@ + e@),
            SheetRefusal::ChildNotRegular => Some(
                "The child schematic path exists but is not a regular file"@,
            ),
            SheetRefusal::Metadata(e) => Some("Sheet metadata rejected: "@ + e@),
            SheetRefusal::Creation(e) => Some("Sheet creation rejected: "@ + e@),
            SheetRefusal::NoChange => Some(
                "Sheet insertion unexpectedly produced no item change"@,
            ),
            SheetRefusal::PatchConflict(e) => Some("Child instance patch conflict: "@ + e@),
            SheetRefusal::PatchRejected(e) => Some("Child instance patch rejected: "@ + e@),
            SheetRefusal::ParentConflict(e) => Some("Sheet creation conflict: "@ + e@),
            SheetRefusal::Staging(e) => Some("Sheet staging stopped safely: "@ + e@),
        }
    }

    /// What is said; nothing where no sheet is shown.
    pub fn text(&self) -> (r: Option<String>)
        ensures
            crate::text::opt_view(r) == self.spec_text(),
    {
        let (mut r, detail) = match self {
            SheetRefusal::Incomplete => {
                return Some(
                    "Hierarchical sheet needs both a name and child filename".to_owned(),
                );
            },
            SheetRefusal::BadPath => {
                return Some(
                    "Child file must be a relative .kicad_sch path without parent traversal".to_owned(),
                );
            },
            SheetRefusal::NoSheet => {
                return None;
            },
            SheetRefusal::NameTaken(name) => {
                let mut r = "A hierarchical sheet named ‘".to_owned();
                r.append(name.as_str());
                r.append("’ already exists");
                return Some(r);
            },
            SheetRefusal::NoDirectory => {
                return Some("Parent schematic has no directory".to_owned());
            },
            SheetRefusal::ChildDirectoryMissing => {
                return Some("The child sheet directory does not exist".to_owned());
            },
            SheetRefusal::SelfReference => {
                return Some("A sheet cannot reference itself".to_owned());
            },
            SheetRefusal::ChildNotRegular => {
                return Some(
                    "The child schematic path exists but is not a regular file".to_owned(),
                );
            },
            SheetRefusal::NoChange => {
                return Some("Sheet insertion unexpectedly produced no item change".to_owned());
            },
            SheetRefusal::ChildUnreadable(e) => ("Could not inspect child sheet: ".to_owned(), e),
            SheetRefusal::Metadata(e) => ("Sheet metadata rejected: ".to_owned(), e),
            SheetRefusal::Creation(e) => ("Sheet creation rejected: ".to_owned(), e),
            SheetRefusal::PatchConflict(e) => ("Child instance patch conflict: ".to_owned(), e),
            SheetRefusal::PatchRejected(e) => ("Child instance patch rejected: ".to_owned(), e),
            SheetRefusal::ParentConflict(e) => ("Sheet creation conflict: ".to_owned(), e),
            SheetRefusal::Staging(e) => ("Sheet staging stopped safely: ".to_owned(), e),
        };
        r.append(detail.as_str());
        Some(r)
    }

    /// The dialog stays open, so that what was typed can be mended.
    pub fn keeps_dialog(&self) -> (r: bool)
        ensures
            r == !(self is NoSheet || self is NoDirectory),
    {
        match self {
            SheetRefusal::NoSheet => false,
            SheetRefusal::NoDirectory => false,
            _ => true,
        }
    }
}

/// The name and the file of a new sheet.
pub struct SheetPlan {
    pub name: String,
    pub file: String,
}

/// One of the first `n` properties is a sheet's name, and the one that is given.
pub open spec fn named_upto(properties: Seq<ObjectProperty>, name: Seq<char>, n: nat) -> bool
    decreases n,
{
    n > 0 && (named_upto(properties, name, (n - 1) as nat) || (properties[n - 1].name@
        == "Sheetname"@ && properties[n - 1].value@ == name))
}

/// A sheet of the name is on the page.
pub open spec fn is_taken(objects: Seq<SceneObject>, name: Seq<char>) -> bool {
    exists|i: int|
        0 <= i < objects.len() && (#[trigger] objects[i]).kind == ObjectKind::Sheet && named_upto(
            objects[i].properties@,
            name,
            objects[i].properties@.len(),
        )
}

fn has_sheet_name(properties: &Vec<ObjectProperty>, name: &str) -> (r: bool)
    ensures
        r == named_upto(properties@, name@, properties@.len()),
{
    let mut r: bool = false;
    let mut i: usize = 0;
    while i < properties.len()
        invariant
            i <= properties@.len(),
            r == named_upto(properties@, name@, i as nat),
        decreases properties@.len() - i,
    {
        if same(properties[i].name.as_str(), "Sheetname") && same(
            properties[i].value.as_str(),
            name,
        ) {
            r = true;
        }
        i = i + 1;
    }
    r
}

fn name_is_taken(objects: &Vec<SceneObject>, name: &str) -> (r: bool)
    ensures
        r == is_taken(objects@, name@),
{
    let mut i: usize = 0;
    while i < objects.len()
        invariant
            i <= objects@.len(),
            forall|k: int|
                0 <= k < i ==> !((#[trigger] objects@[k]).kind == ObjectKind::Sheet && named_upto(
                    objects@[k].properties@,
                    name@,
                    objects@[k].properties@.len(),
                )),
        decreases objects@.len() - i,
    {
        if objects[i].kind == ObjectKind::Sheet && has_sheet_name(&objects[i].properties, name) {
            return true;
        }
        i = i + 1;
    }
    false
}

/// Whether what was typed makes a sheet that the page can take. `objects` is what is on the page
/// that is shown, if one is; paths are read by the rules of Windows or by those of other systems.
pub fn check_sheet_edit(
    edit: &SheetEdit,
    objects: Option<&Vec<SceneObject>>,
    windows: bool,
) -> (r: Result<SheetPlan, SheetRefusal>)
    ensures
        ({
            let name = crate::text::trimmed(edit.name@);
            let file = crate::text::trimmed(edit.file@);
            match r {
                Ok(plan) => {
                    &&& name.len() > 0 && file.len() > 0
                    &&& crate::sheet_facts::is_child_path(file, windows)
                    &&& objects matches Some(objects) && !is_taken(objects@, name)
                    &&& plan.name@ == name
                    &&& plan.file@ == file
                },
                Err(SheetRefusal::Incomplete) => name.len() == 0 || file.len() == 0,
                Err(SheetRefusal::BadPath) => name.len() > 0 && file.len() > 0
                    && !crate::sheet_facts::is_child_path(file, windows),
                Err(SheetRefusal::NoSheet) => name.len() > 0 && crate::sheet_facts::is_child_path(
                    file,
                    windows,
                ) && objects is None,
                Err(SheetRefusal::NameTaken(taken)) => name.len() > 0
                    && crate::sheet_facts::is_child_path(file, windows) && taken@ == name && (
                objects matches Some(objects) && is_taken(objects@, name)),
                Err(_) => false,
            }
        }),
{
    let name = trim(edit.name.as_str());
    let file = trim(edit.file.as_str());
    if name.as_str().is_empty() || file.as_str().is_empty() {
        return Err(SheetRefusal::Incomplete);
    }
    if !check_child_path(file.as_str(), windows) {
        return Err(SheetRefusal::BadPath);
    }
    match objects {
        None => Err(SheetRefusal::NoSheet),
        Some(objects) => {
            if name_is_taken(objects, name.as_str()) {
                return Err(SheetRefusal::NameTaken(name));
            }
            Ok(SheetPlan { name, file })
        },
    }
}

/// Whether the files of a new sheet are in order: the schematic has a directory, that of the
/// sheet is there, and the two are not one file.
pub fn check_sheet_files(has_directory: bool, child_directory: bool, same_file: bool) -> (r: Result<
    (),
    SheetRefusal,
>)
    ensures
        match r {
            Ok(_) => has_directory && child_directory && !same_file,
            Err(SheetRefusal::NoDirectory) => !has_directory,
            Err(SheetRefusal::ChildDirectoryMissing) => has_directory && !child_directory,
            Err(SheetRefusal::SelfReference) => has_directory && child_directory && same_file,
            Err(_) => false,
        },
{
    if !has_directory {
        Err(SheetRefusal::NoDirectory)
    } else if !child_directory {
        Err(SheetRefusal::ChildDirectoryMissing)
    } else if same_file {
        Err(SheetRefusal::SelfReference)
    } else {
        Ok(())
    }
}

/// What is found where the file of a new sheet belongs.
pub enum ChildFile {
    /// A file, with what is in it or why it cannot be read.
    Regular(Result<String, String>),
    /// Something else.
    NotRegular,
    Missing,
}

/// The text of the sheet that is linked: what is staged of it, else what is in its file. Nothing
/// where the sheet is new.
pub fn find_child(session: &EditSession, key: &str, found: ChildFile) -> (r: Result<
    Option<String>,
    SheetRefusal,
>)
    requires
        session.wf(),
    ensures
        if session.staged().contains_key(key@) {
            r matches Ok(Some(source)) && source@ == session.staged()[key@].staged
        } else {
            match found {
                ChildFile::Regular(Ok(text)) => r matches Ok(Some(source)) && source@ == text@,
                ChildFile::Regular(Err(e)) => r matches Err(SheetRefusal::ChildUnreadable(why))
                    && why@ == e@,
                ChildFile::NotRegular => r matches Err(SheetRefusal::ChildNotRegular),
                ChildFile::Missing => r matches Ok(None),
            }
        },
{
    if let Some(staged) = session.staged_source(key) {
        return Ok(Some(staged.to_owned()));
    }
    match found {
        ChildFile::Regular(Ok(text)) => Ok(Some(text)),
        ChildFile::Regular(Err(e)) => Err(SheetRefusal::ChildUnreadable(e)),
        ChildFile::NotRegular => Err(SheetRefusal::ChildNotRegular),
        ChildFile::Missing => Ok(None),
    }
}

/// Where the slashes begin that the first `n` characters end with.
pub open spec fn slashes_upto(s: Seq<char>, n: nat) -> nat
    decreases n,
{
    if n > 0 && s[n - 1] == '/' {
        slashes_upto(s, (n - 1) as nat)
    } else {
        n
    }
}

/// The path by which the symbols of a new sheet are known: that of the schematic, without
/// slashes at its end, a slash and the sheet.
pub fn hierarchy_path(parent: &str, sheet: &str) -> (r: String)
    ensures
        r@ == parent@.take(slashes_upto(parent@, parent@.len()) as int) + "/"@ + sheet@,
{
    let chars = chars_of(parent);
    let mut n: usize = chars.len();
    while n > 0 && chars[n - 1] == '/'
        invariant
            n <= chars@.len(),
            slashes_upto(chars@, chars@.len()) == slashes_upto(chars@, n as nat),
        decreases n,
    {
        n = n - 1;
    }
    let mut r = string_of(&chars, 0, n);
    proof {
        assert(r@ =~= parent@.take(n as int));
    }
    r.append("/");
    r.append(sheet);
    r
}

/// The schematic with the new sheet on it: what it was, what it becomes, and the command that
/// takes the sheet away again.
pub struct ParentChange<C> {
    pub key: String,
    pub file: String,
    pub source: String,
    pub after: String,
    pub inverse: Command<C>,
}

/// What becomes of the file of the new sheet.
pub enum ChildChange<C> {
    /// It is there, and stays as it is.
    Linked,
    /// It is there, and its symbols learn of their new use: its text, what that becomes, the
    /// command that takes this back, and how many symbols there are.
    Patched(String, String, Command<C>, usize),
    /// It is created with the text.
    Created(String),
}

/// The documents that are staged once the schematic is.
pub open spec fn with_parent<C>(
    staged: Map<Seq<char>, crate::edit_session::Staged>,
    parent: ParentChange<C>,
) -> Map<Seq<char>, crate::edit_session::Staged> {
    crate::edit_session::replaced(
        staged,
        parent.key@,
        parent.file@,
        parent.source@,
        parent.after@,
    )
}

/// A text cannot be staged in place of `current`: another is staged already.
pub open spec fn is_stale(
    staged: Map<Seq<char>, crate::edit_session::Staged>,
    key: Seq<char>,
    current: Seq<char>,
) -> bool {
    staged.contains_key(key) && staged[key].staged != current
}

/// The documents that are staged once the new sheet is; nothing where it cannot be.
pub open spec fn with_sheet<C>(
    staged: Map<Seq<char>, crate::edit_session::Staged>,
    parent: ParentChange<C>,
    child_key: Seq<char>,
    child_file: Seq<char>,
    child: ChildChange<C>,
) -> Option<Map<Seq<char>, crate::edit_session::Staged>> {
    let after = with_parent(staged, parent);
    if is_stale(staged, parent.key@, parent.source@) {
        None
    } else {
        match child {
            ChildChange::Linked => Some(after),
            ChildChange::Patched(source, replacement, _, _) => if is_stale(
                after,
                child_key,
                source@,
            ) {
                None
            } else {
                Some(
                    crate::edit_session::replaced(
                        after,
                        child_key,
                        child_file,
                        source@,
                        replacement@,
                    ),
                )
            },
            ChildChange::Created(source) => if after.contains_key(child_key) {
                None
            } else {
                Some(
                    after.insert(
                        child_key,
                        crate::edit_session::Staged {
                            file: child_file,
                            base: None,
                            staged: source@,
                        },
                    ),
                )
            },
        }
    }
}

/// The step of the history that takes a new sheet back.
pub open spec fn takes_back<C>(
    entry: HistoryEntry<C>,
    parent: ParentChange<C>,
    child_file: Seq<char>,
    child: ChildChange<C>,
    directory: Seq<char>,
) -> bool {
    &&& entry.commands@.len() > 0
    &&& entry.commands@[0].file@ == parent.file@
    &&& entry.commands@[0].command == parent.inverse
    &&& match child {
        ChildChange::Linked => {
            &&& entry.journal_root is None
            &&& entry.commands@.len() == 1
            &&& entry.creations@.len() == 0
        },
        ChildChange::Patched(_, _, inverse, _) => {
            &&& entry.journal_root matches Some(root) && root@ == directory
            &&& entry.commands@.len() == 2
            &&& entry.commands@[1].file@ == child_file
            &&& entry.commands@[1].command == inverse
            &&& entry.creations@.len() == 0
        },
        ChildChange::Created(source) => {
            &&& entry.journal_root matches Some(root) && root@ == directory
            &&& entry.commands@.len() == 1
            &&& entry.creations@.len() == 1
            &&& entry.creations@[0].file@ == child_file
            &&& entry.creations@[0].source@ == source@
        },
    }
}

/// What is said when a new sheet is staged.
pub open spec fn staged_text<C>(file_name: Seq<char>, child: ChildChange<C>) -> Seq<char> {
    match child {
        ChildChange::Patched(_, _, _, count) => "Staged "@ + file_name + " link and "@
            + crate::text::decimal(count as nat) + " child symbol patch(es) · press Commit"@,
        ChildChange::Created(_) => "Staged new child "@ + file_name + " and link · press Commit"@,
        ChildChange::Linked => "Staged existing child link "@ + file_name + " · press Commit"@,
    }
}

fn say_staged<C>(file_name: &str, child: &ChildChange<C>) -> (r: String)
    ensures
        r@ == staged_text(file_name@, *child),
{
    match child {
        ChildChange::Patched(_, _, _, count) => {
            let mut r = "Staged ".to_owned();
            r.append(file_name);
            r.append(" link and ");
            r.append(to_decimal(*count as u128).as_str());
            r.append(" child symbol patch(es) · press Commit");
            r
        },
        ChildChange::Created(_) => {
            let mut r = "Staged new child ".to_owned();
            r.append(file_name);
            r.append(" and link · press Commit");
            r
        },
        ChildChange::Linked => {
            let mut r = "Staged existing child link ".to_owned();
            r.append(file_name);
            r.append(" · press Commit");
            r
        },
    }
}

fn stage_files<C>(
    session: &EditSession,
    parent: &ParentChange<C>,
    child_key: String,
    child_file: &str,
    child: &ChildChange<C>,
) -> (r: Result<EditSession, Conflict>)
    requires
        session.wf(),
    ensures
        match r {
            Ok(after) => after.wf() && after.editing() == session.editing() && after.conflicts()
                == session.conflicts() && with_sheet(
                session.staged(),
                *parent,
                child_key@,
                child_file@,
                *child,
            ) == Some(after.staged()),
            Err(conflict) => with_sheet(
                session.staged(),
                *parent,
                child_key@,
                child_file@,
                *child,
            ) is None && conflict.path@ == (if is_stale(
                session.staged(),
                parent.key@,
                parent.source@,
            ) {
                parent.file@
            } else {
                child_file@
            }),
        },
{
    let mut candidate = session.duplicate();
    if let Err(conflict) = candidate.stage_replacement(
        parent.key.clone(),
        parent.file.as_str(),
        parent.source.as_str(),
        parent.after.clone(),
    ) {
        return Err(conflict);
    }
    match child {
        ChildChange::Linked => {},
        ChildChange::Patched(source, replacement, _, _) => {
            if let Err(conflict) = candidate.stage_replacement(
                child_key,
                child_file,
                source.as_str(),
                replacement.clone(),
            ) {
                return Err(conflict);
            }
        },
        ChildChange::Created(source) => {
            if let Err(conflict) = candidate.stage_creation(child_key, child_file, source.clone()) {
                return Err(conflict);
            }
        },
    }
    Ok(candidate)
}

fn remember<C>(
    parent: ParentChange<C>,
    child_file: &str,
    child: ChildChange<C>,
    directory: String,
) -> (r: HistoryEntry<C>)
    ensures
        takes_back(r, parent, child_file@, child, directory@),
{
    let first = HistoryCommand { file: parent.file, command: parent.inverse };
    match child {
        ChildChange::Linked => HistoryEntry::single(first.file, first.command),
        ChildChange::Patched(_, _, inverse, _) => {
            let mut commands: Vec<HistoryCommand<C>> = Vec::new();
            commands.push(first);
            commands.push(HistoryCommand { file: child_file.to_owned(), command: inverse });
            HistoryEntry::group(directory, commands)
        },
        ChildChange::Created(source) => {
            let mut commands: Vec<HistoryCommand<C>> = Vec::new();
            commands.push(first);
            let mut creations: Vec<HistoryCreation> = Vec::new();
            creations.push(HistoryCreation { file: child_file.to_owned(), source });
            HistoryEntry::group_with_creations(directory, commands, creations)
        },
    }
}

/// Stages a new sheet: the schematic with the sheet on it, and its file where that is created or
/// patched. Either all of it is staged and can be taken back in one step, or nothing is.
pub fn commit_sheet_edit<C>(
    session: &mut EditSession,
    history: &mut History<C>,
    parent: ParentChange<C>,
    child_key: String,
    child_file: &str,
    child: ChildChange<C>,
    directory: String,
    file_name: &str,
) -> (r: Result<String, Conflict>)
    requires
        old(session).wf(),
        old(history).wf(),
    ensures
        final(session).wf(),
        final(history).wf(),
        final(session).editing() == old(session).editing(),
        final(session).conflicts() == old(session).conflicts(),
        match r {
            Ok(status) => {
                &&& with_sheet(old(session).staged(), parent, child_key@, child_file@, child)
                    == Some(final(session).staged())
                &&& status@ == staged_text(file_name@, child)
                &&& final(history).redo@.len() == 0
                &&& final(history).undo@.len() > 0
                &&& takes_back(final(history).undo@.last(), parent, child_file@, child, directory@)
                &&& final(history).undo@ == crate::editor_history::pushed(
                    old(history).undo@,
                    final(history).undo@.last(),
                )
            },
            Err(conflict) => {
                &&& with_sheet(old(session).staged(), parent, child_key@, child_file@, child)
                    is None
                &&& conflict.path@ == (if is_stale(
                    old(session).staged(),
                    parent.key@,
                    parent.source@,
                ) {
                    parent.file@
                } else {
                    child_file@
                })
                &&& *final(session) == *old(session)
                &&& *final(history) == *old(history)
            },
        },
{
    let candidate = match stage_files(session, &parent, child_key, child_file, &child) {
        Ok(candidate) => candidate,
        Err(conflict) => {
            return Err(conflict);
        },
    };
    let status = say_staged(file_name, &child);
    *session = candidate;
    let entry = remember(parent, child_file, child, directory);
    history.record(entry);
    Ok(status)
}

/// A document that is staged is not lost when a sheet is: every key stays, and a document other
/// than the two keeps its text.
pub proof fn staging_a_sheet_keeps_the_rest<C>(
    staged: Map<Seq<char>, crate::edit_session::Staged>,
    parent: ParentChange<C>,
    child_key: Seq<char>,
    child_file: Seq<char>,
    child: ChildChange<C>,
    key: Seq<char>,
)
    requires
        with_sheet(staged, parent, child_key, child_file, child) is Some,
        staged.contains_key(key),
    ensures
        with_sheet(staged, parent, child_key, child_file, child)->Some_0.contains_key(key),
        key != parent.key@ && key != child_key ==> with_sheet(
            staged,
            parent,
            child_key,
            child_file,
            child,
        )->Some_0[key] == staged[key],
{
}

} // verus!
