//! What loading again does as a whole: which files it is for, what is shown after it, and what is
//! said of it.

use crate::change_timeline::ChangeKind;
use crate::change_timeline::ChangeOrigin;
use crate::reload::Compared;
use crate::reload::KeyedEntry;
use crate::reload::Merged;
use crate::reload::Pair;
use crate::reload::ReloadRequest;
use crate::reload::SheetBody;
use crate::reload::Shown;
use crate::reload::Written;
use std::sync::Arc;
use vstd::prelude::*;

verus! {

/// A request that takes the place of several is for every file that one of them names, and follows a
/// change by someone else exactly if one of them does.
pub proof fn joined_requests_forget_nothing(requests: Seq<ReloadRequest>, n: nat, file: Seq<char>)
    requires
        n <= requests.len(),
    ensures
        crate::reload::named_by(requests, n).contains(file) <==> exists|i: int|
            0 <= i < n && crate::text::views((#[trigger] requests[i]).changed@).contains(file),
        crate::reload::any_external(requests, n) <==> exists|i: int|
            0 <= i < n && (#[trigger] requests[i]).external_change,
    decreases n,
{
    if n > 0 {
        joined_requests_forget_nothing(requests, (n - 1) as nat, file);
        if crate::reload::named_by(requests, (n - 1) as nat).contains(file) {
            let i = choose|i: int|
                0 <= i < n - 1 && crate::text::views((#[trigger] requests[i]).changed@).contains(
                    file,
                );
            assert(crate::text::views(requests[i].changed@).contains(file));
        }
        if crate::reload::any_external(requests, (n - 1) as nat) {
            let i = choose|i: int| 0 <= i < n - 1 && (#[trigger] requests[i]).external_change;
            assert(requests[i].external_change);
        }
        assert(requests[n - 1] == requests[n - 1]);
    }
}

/// A sheet is loaded exactly if its file changed or is not shown yet, each once and in order.
pub proof fn changed_and_new_sheets_are_loaded(
    request: ReloadRequest,
    entries: Seq<KeyedEntry>,
    n: nat,
)
    requires
        n <= entries.len(),
    ensures
        crate::reload::loaded_upto(request, entries, n) == Seq::new(n, |i: int| i).filter(
            |i: int|
                crate::text::views(request.changed@).contains(entries[i].key@)
                    || !crate::text::views(request.known@).contains(entries[i].key@),
        ),
    decreases n,
{
    let wanted = |i: int|
        crate::text::views(request.changed@).contains(entries[i].key@) || !crate::text::views(
            request.known@,
        ).contains(entries[i].key@);
    reveal(Seq::filter);
    let all = Seq::new(n, |i: int| i);
    if n > 0 {
        changed_and_new_sheets_are_loaded(request, entries, (n - 1) as nat);
        assert(all.drop_last() =~= Seq::new((n - 1) as nat, |i: int| i));
        assert(all.last() == n - 1);
    }
    assert(crate::reload::loaded_upto(request, entries, n) =~= all.filter(wanted));
}

/// The files that someone else changed are all but those that are as this program wrote them.
pub proof fn own_writings_are_not_external(written: Seq<Written>, n: nat)
    requires
        n <= written.len(),
    ensures
        crate::reload::by_others_upto(written, n) == Seq::new(n, |i: int| i).filter(
            |i: int| written[i] == Written::Never || written[i] == Written::Changed,
        ),
    decreases n,
{
    let wanted = |i: int| written[i] == Written::Never || written[i] == Written::Changed;
    reveal(Seq::filter);
    let all = Seq::new(n, |i: int| i);
    if n > 0 {
        own_writings_are_not_external(written, (n - 1) as nat);
        assert(all.drop_last() =~= Seq::new((n - 1) as nat, |i: int| i));
        assert(all.last() == n - 1);
    }
    assert(crate::reload::by_others_upto(written, n) =~= all.filter(wanted));
}

/// The files that are loaded again after a change from outside are those of which nothing is staged.
pub proof fn staged_files_are_not_loaded(
    staged: Map<Seq<char>, crate::edit_session::Staged>,
    keys: Seq<Seq<char>>,
    n: nat,
)
    requires
        n <= keys.len(),
    ensures
        crate::reload::unstaged_upto(staged, keys, n) == Seq::new(n, |i: int| i).filter(
            |i: int| !staged.dom().contains(keys[i]),
        ),
    decreases n,
{
    let wanted = |i: int| !staged.dom().contains(keys[i]);
    reveal(Seq::filter);
    let all = Seq::new(n, |i: int| i);
    if n > 0 {
        staged_files_are_not_loaded(staged, keys, (n - 1) as nat);
        assert(all.drop_last() =~= Seq::new((n - 1) as nat, |i: int| i));
        assert(all.last() == n - 1);
    }
    assert(crate::reload::unstaged_upto(staged, keys, n) =~= all.filter(wanted));
}

/// The names that one list has and another does not are the one list without the other, in order.
pub proof fn names_of_one_list_alone(names: Seq<Seq<char>>, others: Seq<Seq<char>>, n: nat)
    requires
        n <= names.len(),
    ensures
        crate::reload::only_in(names, others, n) == names.take(n as int).filter(
            |name: Seq<char>| !others.contains(name),
        ),
    decreases n,
{
    let wanted = |name: Seq<char>| !others.contains(name);
    reveal(Seq::filter);
    let all = names.take(n as int);
    if n > 0 {
        names_of_one_list_alone(names, others, (n - 1) as nat);
        assert(all.drop_last() =~= names.take(n - 1));
        assert(all.last() == names[n - 1]);
    }
    assert(crate::reload::only_in(names, others, n) =~= all.filter(wanted));
}

/// Of several things of one file the last counts.
pub proof fn the_last_of_a_file_counts<T>(all: Seq<Pair<T>>, key: Seq<char>, n: nat)
    requires
        n <= all.len(),
    ensures
        match crate::reload::last_of(all, key, n) {
            Some(i) => 0 <= i < n && all[i].key == key && forall|j: int|
                i < j < n ==> (#[trigger] all[j]).key != key,
            None => forall|j: int| 0 <= j < n ==> (#[trigger] all[j]).key != key,
        },
    decreases n,
{
    if n > 0 {
        the_last_of_a_file_counts(all, key, (n - 1) as nat);
    }
}

proof fn lemma_sheet<S>(sheets: Seq<Shown<S>>, key: Seq<char>, from: nat)
    requires
        from <= sheets.len(),
        forall|j: int| 0 <= j < from ==> (#[trigger] sheets[j]).key != key,
    ensures
        match crate::reload::sheet_from(sheets, key, from) {
            Some(i) => i < sheets.len() && sheets[i as int].key == key && forall|j: int|
                0 <= j < i ==> (#[trigger] sheets[j]).key != key,
            None => forall|j: int| 0 <= j < sheets.len() ==> (#[trigger] sheets[j]).key != key,
        },
    decreases sheets.len() - from,
{
    if from < sheets.len() && sheets[from as int].key != key {
        lemma_sheet(sheets, key, from + 1);
    }
}

/// The sheet that is looked at stays the same one after loading for as long as its file is part of the
/// project; else the first sheet is shown.
pub proof fn the_shown_sheet_stays<S>(before: Seq<Shown<S>>, active: int, after: Seq<Shown<S>>)
    requires
        0 <= active < before.len(),
    ensures
        ({
            let now = crate::reload::active_after(before, active, after);
            &&& (exists|i: int|
                0 <= i < after.len() && (#[trigger] after[i]).key == before[active].key) ==> now
                < after.len() && after[now as int].key == before[active].key
            &&& !(exists|i: int|
                0 <= i < after.len() && (#[trigger] after[i]).key == before[active].key) ==> now
                == 0
        }),
{
    lemma_sheet(after, before[active].key, 0);
}

/// What is said of a sheet that could not be loaded: its name, and why.
pub open spec fn is_blamed<S>(
    loaded: Seq<Pair<Result<Arc<SheetBody<S>>, String>>>,
    old: Seq<Pair<Arc<SheetBody<S>>>>,
    e: KeyedEntry,
    error: Seq<char>,
) -> bool {
    match crate::reload::of_file(loaded, e.key@) {
        Some(Ok(_)) => false,
        Some(Err(why)) => error == e.entry.name@ + ": "@ + why@,
        None => crate::reload::of_file(old, e.key@) is None && error == e.entry.name@
            + ": background reload returned no scene"@,
    }
}

/// Every sheet that could not be loaded is named among what went wrong, and nothing else is.
pub proof fn failures_are_named<S>(
    start: Merged<S>,
    entries: Seq<KeyedEntry>,
    by_others: bool,
    n: nat,
    error: Seq<char>,
)
    requires
        n <= entries.len(),
        start.errors.len() == 0,
    ensures
        start.with_all(entries, by_others, n).loaded == start.loaded,
        start.with_all(entries, by_others, n).old == start.old,
        start.with_all(entries, by_others, n).errors.contains(error) <==> exists|i: int|
            0 <= i < n && is_blamed(start.loaded, start.old, #[trigger] entries[i], error),
    decreases n,
{
    if n > 0 {
        failures_are_named(start, entries, by_others, (n - 1) as nat, error);
        let before = start.with_all(entries, by_others, (n - 1) as nat);
        let after = start.with_all(entries, by_others, n);
        let e = entries[n - 1];
        if before.errors.contains(error) {
            let i = choose|i: int|
                0 <= i < n - 1 && is_blamed(start.loaded, start.old, #[trigger] entries[i], error);
            assert(is_blamed(start.loaded, start.old, entries[i], error));
        }
        if after.errors != before.errors {
            let added = after.errors.last();
            assert(after.errors == before.errors.push(added));
            crate::sequences::pushed_holds(before.errors, added, error);
            assert(is_blamed(start.loaded, start.old, e, added));
        }
    }
}

proof fn lemma_next_keys<S>(start: Merged<S>, entries: Seq<KeyedEntry>, by_others: bool, n: nat)
    requires
        n <= entries.len(),
        start.next.len() == 0,
    ensures
        start.with_all(entries, by_others, n).loaded == start.loaded,
        start.with_all(entries, by_others, n).old == start.old,
        forall|k: int|
            0 <= k < start.with_all(entries, by_others, n).next.len() ==> exists|i: int|
                0 <= i < n && (#[trigger] entries[i]).key@ == (#[trigger] start.with_all(
                    entries,
                    by_others,
                    n,
                ).next[k]).key,
    decreases n,
{
    if n > 0 {
        lemma_next_keys(start, entries, by_others, (n - 1) as nat);
        let before = start.with_all(entries, by_others, (n - 1) as nat);
        let after = start.with_all(entries, by_others, n);
        assert forall|k: int| 0 <= k < after.next.len() implies exists|i: int|
            0 <= i < n && (#[trigger] entries[i]).key@ == (#[trigger] after.next[k]).key by {
            if k < before.next.len() {
                assert(after.next[k] == before.next[k]);
                let i = choose|i: int|
                    0 <= i < n - 1 && (#[trigger] entries[i]).key@ == before.next[k].key;
                assert(entries[i].key@ == after.next[k].key);
            } else {
                assert(entries[n - 1].key@ == after.next[k].key);
            }
        }
    }
}

proof fn lemma_compared_stay<S>(
    start: Merged<S>,
    entries: Seq<KeyedEntry>,
    by_others: bool,
    m: nat,
    n: nat,
    c: Compared,
)
    requires
        m <= n <= entries.len(),
        start.with_all(entries, by_others, m).compared.contains(c),
    ensures
        start.with_all(entries, by_others, n).compared.contains(c),
    decreases n - m,
{
    if m < n {
        lemma_compared_stay(start, entries, by_others, m, (n - 1) as nat, c);
        let before = start.with_all(entries, by_others, (n - 1) as nat);
        let after = start.with_all(entries, by_others, n);
        if after.compared != before.compared {
            let added = after.compared.last();
            assert(after.compared == before.compared.push(added));
            crate::sequences::pushed_holds(before.compared, added, c);
        }
    }
}

/// A change by someone else of a sheet that was shown and is loaded anew is compared: the items of its
/// first page before with those after. Where no one else changed anything nothing is compared.
pub proof fn changes_by_others_are_compared<S>(
    start: Merged<S>,
    entries: Seq<KeyedEntry>,
    i: int,
    before: Arc<SheetBody<S>>,
    after: Arc<SheetBody<S>>,
)
    requires
        start.next.len() == 0,
        0 <= i < entries.len(),
        forall|j: int| 0 <= j < i ==> (#[trigger] entries[j]).key@ != entries[i].key@,
        crate::reload::of_file(start.loaded, entries[i].key@) == Some(
            Ok::<Arc<SheetBody<S>>, String>(after),
        ),
        crate::reload::of_file(start.old, entries[i].key@) == Some(before),
    ensures
        start.with_all(entries, true, entries.len()).compared.contains(
            Compared {
                name: entries[i].entry.name@,
                file: entries[i].entry.file@,
                before: before.items@,
                after: after.items@,
            },
        ),
{
    let c = Compared {
        name: entries[i].entry.name@,
        file: entries[i].entry.file@,
        before: before.items@,
        after: after.items@,
    };
    let so_far = start.with_all(entries, true, i as nat);
    let next = start.with_all(entries, true, (i + 1) as nat);
    lemma_next_keys(start, entries, true, i as nat);
    lemma_sheet(so_far.next, entries[i].key@, 0);
    if let Some(k) = crate::reload::sheet_from(so_far.next, entries[i].key@, 0) {
        let j = choose|j: int|
            0 <= j < i && (#[trigger] entries[j]).key@ == so_far.next[k as int].key;
        assert(entries[j].key@ != entries[i].key@);
    }
    assert(next.compared == so_far.compared.push(c));
    crate::sequences::pushed_holds(so_far.compared, c, c);
    lemma_compared_stay(start, entries, true, (i + 1) as nat, entries.len(), c);
}

/// Without a change by someone else nothing is compared.
pub proof fn own_changes_are_not_compared<S>(start: Merged<S>, entries: Seq<KeyedEntry>, n: nat)
    requires
        start.compared.len() == 0,
    ensures
        start.with_all(entries, false, n).compared.len() == 0,
    decreases n,
{
    if n > 0 {
        own_changes_are_not_compared(start, entries, (n - 1) as nat);
    }
}

/// A step back or forth is listed as what it is, whatever it is called, and nothing else is listed so.
/// Who made any other change matters only where its label says nothing of its kind.
pub proof fn steps_are_listed_as_steps(origin: ChangeOrigin, label: Seq<char>)
    ensures
        crate::change_timeline::kind_of(origin, label) == ChangeKind::Undo <==> origin
            == ChangeOrigin::Undo,
        crate::change_timeline::kind_of(origin, label) == ChangeKind::Redo <==> origin
            == ChangeOrigin::Redo,
        ({
            let own = crate::change_timeline::kind_of(ChangeOrigin::Local, label);
            let theirs = crate::change_timeline::kind_of(ChangeOrigin::External, label);
            own == theirs || (own == ChangeKind::Edit && theirs == ChangeKind::External)
        }),
{
}

/// A word stands in a label, in whatever case.
pub open spec fn is_called(label: Seq<char>, word: Seq<char>) -> bool {
    crate::text::occurs(crate::text::lower(label), word)
}

proof fn lemma_mentions(label: Seq<char>, words: Seq<Seq<char>>, i: int)
    requires
        0 <= i < words.len(),
    ensures
        crate::text::occurs(label, words[i]) ==> crate::change_timeline::mentions(label, words),
{
}

/// What a label says decides the kind of a change: a copy before all, then a deletion, then what is
/// done with wires, then a move, then a turn.
pub proof fn labels_tell_the_kind(origin: ChangeOrigin, label: Seq<char>)
    requires
        origin == ChangeOrigin::Local || origin == ChangeOrigin::External,
    ensures
        ({
            let kind = crate::change_timeline::kind_of(origin, label);
            let copied = is_called(label, "duplicat"@);
            let gone = is_called(label, "delet"@) || is_called(label, "remov"@);
            let wired = is_called(label, "wire"@) || is_called(label, "bus"@);
            let moved = is_called(label, "mov"@) || is_called(label, "nudge"@);
            let turned = is_called(label, "rotat"@) || is_called(label, "mirror"@) || is_called(
                label,
                "transform"@,
            );
            &&& copied <==> kind == ChangeKind::Duplicate
            &&& gone && !copied <==> kind == ChangeKind::Delete
            &&& wired && !gone && !copied <==> kind == ChangeKind::Wire
            &&& moved && !wired && !gone && !copied <==> kind == ChangeKind::Move
            &&& turned && !moved && !wired && !gone && !copied <==> kind == ChangeKind::Transform
        }),
{
    let low = crate::text::lower(label);
    let a = seq!["duplicat"@];
    let b = seq!["delet"@, "remov"@];
    let c = seq!["wire"@, "bus"@];
    let d = seq!["mov"@, "nudge"@];
    let e = seq!["rotat"@, "mirror"@, "transform"@];
    lemma_mentions(low, a, 0);
    lemma_mentions(low, b, 0);
    lemma_mentions(low, b, 1);
    lemma_mentions(low, c, 0);
    lemma_mentions(low, c, 1);
    lemma_mentions(low, d, 0);
    lemma_mentions(low, d, 1);
    lemma_mentions(low, e, 0);
    lemma_mentions(low, e, 1);
    lemma_mentions(low, e, 2);
}

/// Only a change that is recent is still being introduced, and one that is introduced stays so.
pub proof fn introductions_end(event: crate::change_timeline::ChangeEvent, now: u64, later: u64)
    requires
        now <= later,
    ensures
        event.spec_is_animating(later) ==> event.spec_is_animating(now),
        event.spec_is_animating(now) <==> now < event.introduced_at + 420,
{
}

proof fn lemma_schematic(endings: Seq<Option<String>>, from: nat)
    ensures
        match crate::launch::schematic_from(endings, from) {
            Some(i) => from <= i < endings.len() && crate::text::opt_view(endings[i]) == Some(
                "kicad_sch"@,
            ) && forall|j: int|
                from <= j < i ==> crate::text::opt_view(#[trigger] endings[j]) != Some(
                    "kicad_sch"@,
                ),
            None => forall|j: int|
                from <= j < endings.len() ==> crate::text::opt_view(#[trigger] endings[j]) != Some(
                    "kicad_sch"@,
                ),
        },
    decreases endings.len() - from,
{
    if from < endings.len() {
        lemma_schematic(endings, from + 1);
    }
}

/// The schematic is the first argument behind the program's own name that ends as one does.
pub proof fn the_first_schematic_is_opened(endings: Seq<Option<String>>)
    ensures
        match crate::launch::schematic_from(endings, 1) {
            Some(i) => 1 <= i < endings.len() && crate::text::opt_view(endings[i]) == Some(
                "kicad_sch"@,
            ) && forall|j: int|
                1 <= j < i ==> crate::text::opt_view(#[trigger] endings[j]) != Some("kicad_sch"@),
            None => forall|j: int|
                1 <= j < endings.len() ==> crate::text::opt_view(#[trigger] endings[j]) != Some(
                    "kicad_sch"@,
                ),
        },
{
    lemma_schematic(endings, 1);
}

proof fn lemma_flag(arguments: Seq<Option<String>>, flag: Seq<char>, from: nat)
    ensures
        match crate::launch::after_flag(arguments, flag, from) {
            Some(i) => from < i <= arguments.len() && crate::text::opt_view(arguments[i - 1])
                == Some(flag) && forall|j: int|
                from <= j < i - 1 ==> crate::text::opt_view(#[trigger] arguments[j]) != Some(flag),
            None => forall|j: int|
                from <= j < arguments.len() ==> crate::text::opt_view(#[trigger] arguments[j])
                    != Some(flag),
        },
    decreases arguments.len() - from,
{
    if from < arguments.len() {
        lemma_flag(arguments, flag, from + 1);
    }
}

/// What belongs to a flag stands right behind its first occurrence.
pub proof fn flags_take_what_follows(arguments: Seq<Option<String>>, flag: Seq<char>)
    ensures
        match crate::launch::after_flag(arguments, flag, 0) {
            Some(i) => 0 < i <= arguments.len() && crate::text::opt_view(arguments[i - 1]) == Some(
                flag,
            ) && forall|j: int|
                0 <= j < i - 1 ==> crate::text::opt_view(#[trigger] arguments[j]) != Some(flag),
            None => forall|j: int|
                0 <= j < arguments.len() ==> crate::text::opt_view(#[trigger] arguments[j]) != Some(
                    flag,
                ),
        },
{
    lemma_flag(arguments, flag, 0);
}

/// What is staged can be written exactly if editing is on, something is staged, no staged file was
/// changed from outside, none is open elsewhere, and the project has a directory.
pub proof fn commits_are_allowed(
    session: crate::edit_session::EditSession,
    locked: bool,
    rooted: bool,
)
    ensures
        crate::edit_control::commit_block(session, locked, rooted) is None <==> session.editing()
            && session.dirty().len() > 0 && session.conflicts().len() == 0 && !locked && rooted,
{
}

} // verus!
