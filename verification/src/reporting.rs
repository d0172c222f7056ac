//! What is said of an edit that was tried.

use crate::edit_control::Operation;
use vstd::prelude::*;

verus! {

/// The text begins with the words.
pub open spec fn opens_with(s: Seq<char>, words: Seq<char>) -> bool {
    words.len() <= s.len() && s.take(words.len() as int) == words
}

/// The text ends with the words.
pub open spec fn closes_with(s: Seq<char>, words: Seq<char>) -> bool {
    words.len() <= s.len() && s.skip(s.len() - words.len()) == words
}

proof fn lemma_opens(a: Seq<char>, b: Seq<char>, words: Seq<char>)
    requires
        opens_with(a, words),
    ensures
        opens_with(a + b, words),
{
    assert((a + b).take(words.len() as int) =~= a.take(words.len() as int));
}

proof fn lemma_closes(a: Seq<char>, words: Seq<char>)
    ensures
        closes_with(a + words, words),
{
    assert((a + words).skip(a.len() as int) =~= words);
}

proof fn lemma_staged()
    ensures
        opens_with("Staged "@, "Staged"@),
        opens_with("Staged"@, "Staged"@),
        opens_with("Staged deletion of "@, "Staged"@),
        opens_with("Staged · "@, "Staged"@),
        opens_with("Staged duplicate · reference left unannotated · press Commit"@, "Staged"@),
        opens_with("Staged bus · press Commit to write"@, "Staged"@),
        opens_with("Staged wire · press Commit to write"@, "Staged"@),
{
    reveal_strlit("Staged");
    reveal_strlit("Staged ");
    reveal_strlit("Staged deletion of ");
    reveal_strlit("Staged · ");
    reveal_strlit("Staged duplicate · reference left unannotated · press Commit");
    reveal_strlit("Staged bus · press Commit to write");
    reveal_strlit("Staged wire · press Commit to write");
    assert("Staged "@.take(6) =~= "Staged"@);
    assert("Staged"@.take(6) =~= "Staged"@);
    assert("Staged deletion of "@.take(6) =~= "Staged"@);
    assert("Staged · "@.take(6) =~= "Staged"@);
    assert("Staged duplicate · reference left unannotated · press Commit"@.take(6) =~= "Staged"@);
    assert("Staged bus · press Commit to write"@.take(6) =~= "Staged"@);
    assert("Staged wire · press Commit to write"@.take(6) =~= "Staged"@);
}

proof fn lemma_failed()
    ensures
        opens_with("Could not stage "@, "Could not stage"@),
        opens_with("Could not stage property: "@, "Could not stage"@),
        opens_with("Could not stage edit: "@, "Could not stage"@),
        opens_with("Could not stage deletion: "@, "Could not stage"@),
        opens_with("Could not stage duplicate: "@, "Could not stage"@),
        opens_with("Could not stage bus: "@, "Could not stage"@),
        opens_with("Could not stage wire: "@, "Could not stage"@),
        opens_with("Could not stage sheet pin: "@, "Could not stage"@),
        opens_with("Could not stage history operation: "@, "Could not stage"@),
{
    reveal_strlit("Could not stage");
    reveal_strlit("Could not stage ");
    reveal_strlit("Could not stage property: ");
    reveal_strlit("Could not stage edit: ");
    reveal_strlit("Could not stage deletion: ");
    reveal_strlit("Could not stage duplicate: ");
    reveal_strlit("Could not stage bus: ");
    reveal_strlit("Could not stage wire: ");
    reveal_strlit("Could not stage sheet pin: ");
    reveal_strlit("Could not stage history operation: ");
    assert("Could not stage "@.take(15) =~= "Could not stage"@);
    assert("Could not stage property: "@.take(15) =~= "Could not stage"@);
    assert("Could not stage edit: "@.take(15) =~= "Could not stage"@);
    assert("Could not stage deletion: "@.take(15) =~= "Could not stage"@);
    assert("Could not stage duplicate: "@.take(15) =~= "Could not stage"@);
    assert("Could not stage bus: "@.take(15) =~= "Could not stage"@);
    assert("Could not stage wire: "@.take(15) =~= "Could not stage"@);
    assert("Could not stage sheet pin: "@.take(15) =~= "Could not stage"@);
    assert("Could not stage history operation: "@.take(15) =~= "Could not stage"@);
}

/// Whatever was tried, what is said of it tells whether it is staged: an edit that is begins so, and
/// one that failed says that it could not be, and why.
pub proof fn outcomes_are_told_apart(op: Operation, rebased: bool, error: Seq<char>)
    ensures
        opens_with(op.staged_text(rebased), "Staged"@),
        opens_with(op.failure_text(error), "Could not stage"@),
        closes_with(op.failure_text(error), error),
        !opens_with(op.failure_text(error), "Staged"@),
        op is Move || closes_with(op.conflict_text(error), error),
{
    lemma_staged();
    lemma_failed();
    let word = "Staged"@;
    let no = "Could not stage"@;
    let safely = if rebased {
        " · safely rebased"@
    } else {
        ""@
    };
    match op {
        Operation::Property(name) => {
            lemma_opens("Staged "@, name@ + " · press Commit to write"@, word);
            assert(op.staged_text(rebased) =~= "Staged "@ + (name@ + " · press Commit to write"@));
            lemma_opens("Could not stage property: "@, error, no);
            lemma_closes("Could not stage property: "@, error);
            lemma_closes("Property staging conflict: "@, error);
        },
        Operation::Move(count, dx, dy) => {
            let rest = safely + " · moved "@ + crate::text::decimal(count as nat) + " item(s) by ("@
                + crate::edit_control::fixed2_text(dx) + ", "@ + crate::edit_control::fixed2_text(
                dy,
            ) + ") mm · press Commit"@;
            lemma_opens("Staged"@, rest, word);
            assert(op.staged_text(rebased) =~= "Staged"@ + rest);
            lemma_opens("Could not stage edit: "@, error, no);
            lemma_closes("Could not stage edit: "@, error);
        },
        Operation::Delete(count) => {
            let rest = crate::text::decimal(count as nat)
                + " item(s) · Undo restores them · press Commit"@;
            lemma_opens("Staged deletion of "@, rest, word);
            assert(op.staged_text(rebased) =~= "Staged deletion of "@ + rest);
            lemma_opens("Could not stage deletion: "@, error, no);
            lemma_closes("Could not stage deletion: "@, error);
            lemma_closes("Delete staging conflict: "@, error);
        },
        Operation::Transform(t, count) => {
            let rest = t.spec_past() + " "@ + crate::text::decimal(count as nat) + " "@
                + t.spec_items() + " · press Commit"@;
            lemma_opens("Staged · "@, rest, word);
            assert(op.staged_text(rebased) =~= "Staged · "@ + rest);
            lemma_opens("Could not stage "@, t.spec_name() + ": "@ + error, no);
            assert(op.failure_text(error) =~= "Could not stage "@ + (t.spec_name() + ": "@
                + error));
            lemma_closes("Could not stage "@ + t.spec_name() + ": "@, error);
            lemma_closes(t.spec_name() + " staging conflict: "@, error);
        },
        Operation::Duplicate => {
            lemma_opens("Could not stage duplicate: "@, error, no);
            lemma_closes("Could not stage duplicate: "@, error);
            lemma_closes("Duplicate staging conflict: "@, error);
        },
        Operation::Wire(is_bus) => {
            lemma_opens("Could not stage bus: "@, error, no);
            lemma_opens("Could not stage wire: "@, error, no);
            lemma_closes("Could not stage bus: "@, error);
            lemma_closes("Could not stage wire: "@, error);
            lemma_closes("Bus staging conflict: "@, error);
            lemma_closes("Wire staging conflict: "@, error);
        },
        Operation::Insert(what) => {
            lemma_opens("Staged "@, what@ + " · press Commit to write"@, word);
            assert(op.staged_text(rebased) =~= "Staged "@ + (what@ + " · press Commit to write"@));
            lemma_opens("Could not stage "@, what@ + ": "@ + error, no);
            assert(op.failure_text(error) =~= "Could not stage "@ + (what@ + ": "@ + error));
            lemma_closes("Could not stage "@ + what@ + ": "@, error);
            lemma_closes(what@ + " staging conflict: "@, error);
        },
        Operation::SheetPin(name, kind) => {
            let rest = name@ + " "@ + kind@ + " sheet pin · press Commit"@;
            lemma_opens("Staged "@, rest, word);
            assert(op.staged_text(rebased) =~= "Staged "@ + rest);
            lemma_opens("Could not stage sheet pin: "@, error, no);
            lemma_closes("Could not stage sheet pin: "@, error);
            lemma_closes("Sheet-pin staging conflict: "@, error);
        },
        Operation::History(label) => {
            let rest = label@ + safely + " · press Commit"@;
            lemma_opens("Staged "@, rest, word);
            assert(op.staged_text(rebased) =~= "Staged "@ + rest);
            lemma_opens("Could not stage history operation: "@, error, no);
            lemma_closes("Could not stage history operation: "@, error);
            lemma_closes("Staged history conflict: "@, error);
        },
    }
    reveal_strlit("Could not stage");
    reveal_strlit("Staged");
    let failed = op.failure_text(error);
    assert(failed.take(15)[0] == failed[0]);
    assert(failed[0] == 'C');
    if opens_with(failed, word) {
        assert(failed.take(6)[0] == failed[0]);
    }
}

/// The line of status says whether editing is on and how much is staged, and speaks of warnings
/// exactly if there are any.
pub proof fn the_status_tells_the_mode(
    editing: bool,
    pending: nat,
    pages: nat,
    sheet: Option<crate::edit_control::SheetReport>,
)
    ensures
        ({
            let s = crate::edit_control::status_text(editing, pending, pages, sheet);
            &&& !editing ==> opens_with(s, "Read-only"@)
            &&& editing ==> opens_with(s, "Edit mode"@)
            &&& editing && pending > 0 ==> opens_with(
                s,
                "Edit mode · "@ + crate::text::decimal(pending),
            )
        }),
{
    let mode = crate::edit_control::mode_text(editing, pending);
    let base = mode + " · Live · "@ + crate::text::decimal(pages) + " page(s)"@;
    let s = crate::edit_control::status_text(editing, pending, pages, sheet);
    lemma_status(editing, pending, pages, sheet);
    reveal_strlit("Edit mode");
    reveal_strlit("Edit mode · ");
    assert(mode.take(mode.len() as int) =~= mode);
    if editing && pending > 0 {
        let start = "Edit mode · "@ + crate::text::decimal(pending);
        assert(mode.take(start.len() as int) =~= start);
        assert(mode.take(9) =~= "Edit mode"@);
    }
    let words = if !editing {
        "Read-only"@
    } else {
        "Edit mode"@
    };
    assert(opens_with(mode, words));
    lemma_opens_through(mode, s, words);
    if editing && pending > 0 {
        lemma_opens_through(mode, s, "Edit mode · "@ + crate::text::decimal(pending));
    }
}

proof fn lemma_opens_through(mode: Seq<char>, s: Seq<char>, words: Seq<char>)
    requires
        opens_with(s, mode),
        opens_with(mode, words),
    ensures
        opens_with(s, words),
{
    assert(s.take(words.len() as int) =~= s.take(mode.len() as int).take(words.len() as int));
}

proof fn lemma_status(
    editing: bool,
    pending: nat,
    pages: nat,
    sheet: Option<crate::edit_control::SheetReport>,
)
    ensures
        opens_with(
            crate::edit_control::status_text(editing, pending, pages, sheet),
            crate::edit_control::mode_text(editing, pending),
        ),
{
    let mode = crate::edit_control::mode_text(editing, pending);
    let base = mode + " · Live · "@ + crate::text::decimal(pages) + " page(s)"@;
    let s = crate::edit_control::status_text(editing, pending, pages, sheet);
    assert(s.take(mode.len() as int) =~= mode);
}

} // verus!
