//! Policies of the editor that need neither a window nor a file.

use crate::text::same;
use crate::text::sorted_set;
use crate::text::to_decimal;
use vstd::prelude::*;

verus! {

/// Where an editor of KiCad's puts the lock of a document.
pub struct LockPath {
    pub directory: String,
    pub file_name: String,
}

/// The lock beside a document: `directory` is where the document is, `file_name` its name, as
/// far as they are known.
pub fn kicad_lock_path(directory: Option<&str>, file_name: Option<&str>) -> (r: LockPath)
    ensures
        r.directory@ == (match directory {
            Some(directory) => directory@,
            None => ""@,
        }),
        r.file_name@ == "~"@ + (match file_name {
            Some(name) => name@,
            None => "schematic.kicad_sch"@,
        }) + ".lck"@,
{
    let directory: &str = match directory {
        Some(directory) => directory,
        None => "",
    };
    let name: &str = match file_name {
        Some(name) => name,
        None => "schematic.kicad_sch",
    };
    LockPath {
        directory: directory.to_owned(),
        file_name: crate::text::joined3("~", name, ".lck"),
    }
}

/// An item of a document: its identifier and its text.
pub struct ItemText {
    pub uuid: String,
    pub text: String,
}

/// What changed in a document behind the viewer's back.
pub struct ExternalChangeSummary {
    pub description: String,
    pub changed_uuids: Vec<String>,
}

/// The text of the last of the first `n` items with the given identifier.
pub open spec fn text_of(items: Seq<ItemText>, uuid: Seq<char>, n: nat) -> Option<Seq<char>>
    decreases n,
{
    if n == 0 {
        None
    } else if items[n - 1].uuid@ == uuid {
        Some(items[n - 1].text@)
    } else {
        text_of(items, uuid, (n - 1) as nat)
    }
}

/// The text of the item with the given identifier.
pub open spec fn item_text(items: Seq<ItemText>, uuid: Seq<char>) -> Option<Seq<char>> {
    text_of(items, uuid, items.len())
}

/// What became of an item.
#[derive(Clone, Copy, PartialEq, Eq, Structural, Debug)]
pub enum ItemChange {
    Added,
    Removed,
    Modified,
}

/// What became of the item with the given identifier, if anything.
pub open spec fn change_of(
    before: Seq<ItemText>,
    after: Seq<ItemText>,
    uuid: Seq<char>,
) -> Option<ItemChange> {
    match (item_text(before, uuid), item_text(after, uuid)) {
        (None, Some(_)) => Some(ItemChange::Added),
        (Some(_), None) => Some(ItemChange::Removed),
        (Some(a), Some(b)) => if a != b {
            Some(ItemChange::Modified)
        } else {
            None
        },
        (None, None) => None,
    }
}

/// `names` are the identifiers of all items that the change befell, in ascending order.
pub open spec fn befell(
    names: Seq<Seq<char>>,
    before: Seq<ItemText>,
    after: Seq<ItemText>,
    change: ItemChange,
) -> bool {
    &&& crate::text::ascending(names)
    &&& forall|uuid: Seq<char>| #[trigger]
        names.contains(uuid) <==> change_of(before, after, uuid) == Some(change)
}

/// The first names, at most `n`, with commas between them.
pub open spec fn listed(names: Seq<Seq<char>>, n: nat) -> Seq<char>
    decreases n,
{
    if n == 0 || names.len() == 0 {
        Seq::empty()
    } else if n == 1 || names.len() == 1 {
        names[0]
    } else {
        names[0] + ", "@ + listed(names.skip(1), (n - 1) as nat)
    }
}

/// The sentence about a change.
pub open spec fn summary_text(
    name: Seq<char>,
    added: Seq<Seq<char>>,
    removed: Seq<Seq<char>>,
    modified: Seq<Seq<char>>,
) -> Seq<char> {
    name + " · +"@ + crate::text::decimal(added.len()) + " added · −"@ + crate::text::decimal(
        removed.len(),
    ) + " removed · ~"@ + crate::text::decimal(modified.len()) + " modified"@ + (if listed(
        modified,
        3,
    ).len() == 0 {
        Seq::empty()
    } else {
        " · changed: "@ + listed(modified, 3)
    })
}

fn find_text<'a>(items: &'a Vec<ItemText>, uuid: &str) -> (r: Option<&'a str>)
    ensures
        crate::sexp::ref_view(r) == item_text(items@, uuid@),
{
    let mut n: usize = items.len();
    while n > 0
        invariant
            n <= items@.len(),
            item_text(items@, uuid@) == text_of(items@, uuid@, n as nat),
        decreases n,
    {
        if same(items[n - 1].uuid.as_str(), uuid) {
            return Some(items[n - 1].text.as_str());
        }
        n = n - 1;
    }
    None
}

proof fn lemma_known(items: Seq<ItemText>, uuid: Seq<char>, n: nat)
    requires
        n <= items.len(),
    ensures
        text_of(items, uuid, n) is Some <==> exists|i: int|
            0 <= i < n && (#[trigger] items[i]).uuid@ == uuid,
    decreases n,
{
    if n > 0 {
        lemma_known(items, uuid, (n - 1) as nat);
    }
}

fn change(before: &Vec<ItemText>, after: &Vec<ItemText>, uuid: &str) -> (r: Option<ItemChange>)
    ensures
        r == change_of(before@, after@, uuid@),
{
    match (find_text(before, uuid), find_text(after, uuid)) {
        (None, Some(_)) => Some(ItemChange::Added),
        (Some(_), None) => Some(ItemChange::Removed),
        (Some(a), Some(b)) => {
            if same(a, b) {
                None
            } else {
                Some(ItemChange::Modified)
            }
        },
        (None, None) => None,
    }
}

/// The identifiers of the items of `from` that the change befell, as they come.
fn collect(
    from: &Vec<ItemText>,
    before: &Vec<ItemText>,
    after: &Vec<ItemText>,
    wanted: ItemChange,
) -> (r: Vec<String>)
    ensures
        forall|uuid: Seq<char>| #[trigger]
            crate::text::views(r@).contains(uuid) <==> item_text(from@, uuid) is Some
                && change_of(before@, after@, uuid) == Some(wanted),
{
    let mut r: Vec<String> = Vec::new();
    let mut i: usize = 0;
    while i < from.len()
        invariant
            i <= from@.len(),
            forall|uuid: Seq<char>| #[trigger]
                crate::text::views(r@).contains(uuid) <==> (exists|k: int|
                    0 <= k < i && (#[trigger] from@[k]).uuid@ == uuid) && change_of(
                    before@,
                    after@,
                    uuid,
                ) == Some(wanted),
        decreases from@.len() - i,
    {
        let ghost held = crate::text::views(r@);
        let uuid = &from[i].uuid;
        let found: bool = match change(before, after, uuid.as_str()) {
            Some(found) => found == wanted,
            None => false,
        };
        if found {
            r.push(uuid.clone());
            proof {
                let now = crate::text::views(r@);
                assert(now =~= held.push(uuid@));
                assert forall|x: Seq<char>| #[trigger]
                    now.contains(x) <==> held.contains(x) || x == uuid@ by {
                    if held.contains(x) {
                        let k = choose|k: int| 0 <= k < held.len() && held[k] == x;
                        assert(now[k] == x);
                    }
                    if now.contains(x) {
                        let k = choose|k: int| 0 <= k < now.len() && now[k] == x;
                        if k < held.len() {
                            assert(held[k] == x);
                        }
                    }
                    assert(now[held.len() as int] == uuid@);
                }
            }
        }
        proof {
            let now = crate::text::views(r@);
            assert forall|x: Seq<char>| #[trigger]
                now.contains(x) <==> (exists|k: int|
                0 <= k < i + 1 && (#[trigger] from@[k]).uuid@ == x) && change_of(
                before@,
                after@,
                x,
            ) == Some(wanted) by {
                assert(held.contains(x) <==> (exists|k: int|
                    0 <= k < i && (#[trigger] from@[k]).uuid@ == x) && change_of(
                    before@,
                    after@,
                    x,
                ) == Some(wanted));
                if from@[i as int].uuid@ == x {
                    assert(exists|k: int| 0 <= k < i + 1 && (#[trigger] from@[k]).uuid@ == x);
                }
            }
        }
        i = i + 1;
    }
    proof {
        assert forall|uuid: Seq<char>| #[trigger]
            crate::text::views(r@).contains(uuid) <==> item_text(from@, uuid) is Some
            && change_of(before@, after@, uuid) == Some(wanted) by {
            lemma_known(from@, uuid, from@.len());
        }
    }
    r
}

fn to_listed(names: &Vec<String>, from: usize, n: usize) -> (r: String)
    requires
        from <= names@.len(),
    ensures
        r@ == listed(crate::text::views(names@).skip(from as int), n as nat),
    decreases n,
{
    let ghost rest = crate::text::views(names@).skip(from as int);
    if n == 0 || from == names.len() {
        let r = String::new();
        assert(r@ =~= listed(rest, n as nat));
        r
    } else if n == 1 || from + 1 == names.len() {
        assert(rest[0] == names@[from as int]@);
        names[from].clone()
    } else {
        assert(rest[0] == names@[from as int]@);
        assert(rest.skip(1) =~= crate::text::views(names@).skip(from + 1));
        let tail = to_listed(names, from + 1, n - 1);
        crate::text::joined3(names[from].as_str(), ", ", tail.as_str())
    }
}

/// What is said of a change: nothing where nothing changed, else the identifiers of what came, went
/// and changed, and the sentence about them.
pub open spec fn summarizes(
    r: Option<ExternalChangeSummary>,
    name: Seq<char>,
    before: Seq<ItemText>,
    after: Seq<ItemText>,
) -> bool {
    match r {
        None => forall|uuid: Seq<char>| change_of(before, after, uuid) is None,
        Some(summary) => exists|
            added: Seq<Seq<char>>,
            removed: Seq<Seq<char>>,
            modified: Seq<Seq<char>>,
        | #[trigger]
            summary_of(summary, name, before, after, added, removed, modified),
    }
}

/// The summary names what came, went and changed, and there is something of these.
pub open spec fn summary_of(
    summary: ExternalChangeSummary,
    name: Seq<char>,
    before: Seq<ItemText>,
    after: Seq<ItemText>,
    added: Seq<Seq<char>>,
    removed: Seq<Seq<char>>,
    modified: Seq<Seq<char>>,
) -> bool {
    &&& befell(added, before, after, ItemChange::Added)
    &&& befell(removed, before, after, ItemChange::Removed)
    &&& befell(modified, before, after, ItemChange::Modified)
    &&& added.len() + removed.len() + modified.len() > 0
    &&& crate::text::views(summary.changed_uuids@) == added + removed + modified
    &&& summary.description@ == summary_text(name, added, removed, modified)
}

/// Says what changed between two states of a document, if anything did: how many items came,
/// went and changed, and which.
pub fn summarize_external_change(
    name: &str,
    before: &Vec<ItemText>,
    after: &Vec<ItemText>,
) -> (r: Option<ExternalChangeSummary>)
    ensures
        summarizes(r, name@, before@, after@),
{
    let came = collect(after, before, after, ItemChange::Added);
    let went = collect(before, before, after, ItemChange::Removed);
    let differ = collect(before, before, after, ItemChange::Modified);
    let mut added = sorted_set(&came);
    let mut removed = sorted_set(&went);
    let mut modified = sorted_set(&differ);
    let ghost a = crate::text::views(added@);
    let ghost d = crate::text::views(removed@);
    let ghost m = crate::text::views(modified@);
    proof {
        assert(befell(a, before@, after@, ItemChange::Added)) by {
            assert forall|uuid: Seq<char>| #[trigger]
                a.contains(uuid) <==> change_of(before@, after@, uuid) == Some(
                ItemChange::Added,
            ) by {
                assert(a.contains(uuid) <==> crate::text::views(came@).contains(uuid));
            }
        }
        assert(befell(d, before@, after@, ItemChange::Removed)) by {
            assert forall|uuid: Seq<char>| #[trigger]
                d.contains(uuid) <==> change_of(before@, after@, uuid) == Some(
                ItemChange::Removed,
            ) by {
                assert(d.contains(uuid) <==> crate::text::views(went@).contains(uuid));
            }
        }
        assert(befell(m, before@, after@, ItemChange::Modified)) by {
            assert forall|uuid: Seq<char>| #[trigger]
                m.contains(uuid) <==> change_of(before@, after@, uuid) == Some(
                ItemChange::Modified,
            ) by {
                assert(m.contains(uuid) <==> crate::text::views(differ@).contains(uuid));
            }
        }
    }
    if added.len() == 0 && removed.len() == 0 && modified.len() == 0 {
        proof {
            assert forall|uuid: Seq<char>| change_of(before@, after@, uuid) is None by {
                assert(!a.contains(uuid) && !d.contains(uuid) && !m.contains(uuid));
            }
        }
        return None;
    }
    let examples = to_listed(&modified, 0, 3);
    assert(m.skip(0) =~= m);
    let mut description = name.to_owned();
    description.append(" · +");
    let count = to_decimal(added.len() as u128);
    description.append(count.as_str());
    description.append(" added · −");
    let count = to_decimal(removed.len() as u128);
    description.append(count.as_str());
    description.append(" removed · ~");
    let count = to_decimal(modified.len() as u128);
    description.append(count.as_str());
    description.append(" modified");
    if !examples.as_str().is_empty() {
        description.append(" · changed: ");
        description.append(examples.as_str());
    }
    assert(description@ =~= summary_text(name@, a, d, m));
    let mut changed_uuids = added;
    changed_uuids.append(&mut removed);
    changed_uuids.append(&mut modified);
    assert(crate::text::views(changed_uuids@) =~= a + d + m);
    let summary = ExternalChangeSummary { description, changed_uuids };
    let r = Some(summary);
    assert(summary_of(r->0, name@, before@, after@, a, d, m));
    r
}

/// Seen from the other side, what was added was removed and what was removed was added, and what
/// was modified was modified.
pub proof fn swapping_the_states_swaps_the_change(
    before: Seq<ItemText>,
    after: Seq<ItemText>,
    names: Seq<Seq<char>>,
)
    ensures
        befell(names, after, before, ItemChange::Removed) == befell(
            names,
            before,
            after,
            ItemChange::Added,
        ),
        befell(names, after, before, ItemChange::Added) == befell(
            names,
            before,
            after,
            ItemChange::Removed,
        ),
        befell(names, after, before, ItemChange::Modified) == befell(
            names,
            before,
            after,
            ItemChange::Modified,
        ),
{
    assert forall|uuid: Seq<char>|
        (change_of(after, before, uuid) == Some(ItemChange::Removed)) == (#[trigger] change_of(
            before,
            after,
            uuid,
        ) == Some(ItemChange::Added)) && (change_of(after, before, uuid) == Some(
            ItemChange::Added,
        )) == (change_of(before, after, uuid) == Some(ItemChange::Removed)) && (change_of(
            after,
            before,
            uuid,
        ) == Some(ItemChange::Modified)) == (change_of(before, after, uuid) == Some(
            ItemChange::Modified,
        )) by {}
    assert forall|c: ItemChange, d: ItemChange|
        (forall|uuid: Seq<char>|
            (change_of(after, before, uuid) == Some(c)) == (#[trigger] change_of(
                before,
                after,
                uuid,
            ) == Some(d))) implies #[trigger] befell(names, after, before, c) == #[trigger] befell(
        names,
        before,
        after,
        d,
    ) by {
        if befell(names, before, after, d) {
            assert forall|uuid: Seq<char>| #[trigger]
                names.contains(uuid) <==> change_of(after, before, uuid) == Some(c) by {
                assert((change_of(after, before, uuid) == Some(c)) == (change_of(
                    before,
                    after,
                    uuid,
                ) == Some(d)));
            }
        }
        if befell(names, after, before, c) {
            assert forall|uuid: Seq<char>| #[trigger]
                names.contains(uuid) <==> change_of(before, after, uuid) == Some(d) by {
                assert((change_of(after, before, uuid) == Some(c)) == (change_of(
                    before,
                    after,
                    uuid,
                ) == Some(d)));
            }
        }
    }
}

/// A change and the same change seen from the other side are both summed up, or neither is. The two
/// summaries speak of the same items: what the one calls added the other calls removed, and what is
/// modified is so for both.
pub proof fn swapping_the_states_swaps_the_summary(
    there: Option<ExternalChangeSummary>,
    back: Option<ExternalChangeSummary>,
    name: Seq<char>,
    before: Seq<ItemText>,
    after: Seq<ItemText>,
)
    requires
        summarizes(there, name, before, after),
        summarizes(back, name, after, before),
    ensures
        there is Some <==> back is Some,
        there matches Some(summary) ==> exists|
            added: Seq<Seq<char>>,
            removed: Seq<Seq<char>>,
            modified: Seq<Seq<char>>,
        | #[trigger]
            summary_of(summary, name, before, after, added, removed, modified) && summary_of(
                back->Some_0,
                name,
                after,
                before,
                removed,
                added,
                modified,
            ),
{
    if let Some(summary) = there {
        let (a, d, m) = choose|
            added: Seq<Seq<char>>,
            removed: Seq<Seq<char>>,
            modified: Seq<Seq<char>>,
        | #[trigger]
            summary_of(summary, name, before, after, added, removed, modified);
        swapping_the_states_swaps_the_change(before, after, a);
        swapping_the_states_swaps_the_change(before, after, d);
        swapping_the_states_swaps_the_change(before, after, m);
        if back is None {
            assert forall|uuid: Seq<char>| change_of(before, after, uuid) is None by {
                assert(change_of(after, before, uuid) is None);
            }
            if a.len() > 0 {
                assert(a.contains(a[0]));
            }
            if d.len() > 0 {
                assert(d.contains(d[0]));
            }
            if m.len() > 0 {
                assert(m.contains(m[0]));
            }
        } else {
            let other = back->Some_0;
            let (x, y, z) = choose|
                added: Seq<Seq<char>>,
                removed: Seq<Seq<char>>,
                modified: Seq<Seq<char>>,
            | #[trigger]
                summary_of(other, name, after, before, added, removed, modified);
            crate::text::ascending_names_are_determined(x, d);
            crate::text::ascending_names_are_determined(y, a);
            crate::text::ascending_names_are_determined(z, m);
            assert(summary_of(other, name, after, before, d, a, m));
        }
    } else if let Some(other) = back {
        let (x, y, z) = choose|
            added: Seq<Seq<char>>,
            removed: Seq<Seq<char>>,
            modified: Seq<Seq<char>>,
        | #[trigger]
            summary_of(other, name, after, before, added, removed, modified);
        assert forall|uuid: Seq<char>| change_of(after, before, uuid) is None by {
            assert(change_of(before, after, uuid) is None);
        }
        if x.len() > 0 {
            assert(x.contains(x[0]));
        }
        if y.len() > 0 {
            assert(y.contains(y[0]));
        }
        if z.len() > 0 {
            assert(z.contains(z[0]));
        }
    }
}

} // verus!
