//! Loading sheets again when their files change: which are loaded, and how what was loaded takes
//! the place of what is shown.

use crate::edit_session::EditSession;
use crate::editor_model::{summarize_external_change, ExternalChangeSummary, ItemText};
use crate::hierarchy::HierarchyEntry;
use crate::scene_builder::SceneObject;
use crate::selection::Selection;
use crate::text::{clone_names, has_name, same, to_decimal};
use std::sync::Arc;
use vstd::prelude::*;

verus! {

/// A wish to load sheets again. Files are named by what their paths resolve to.
pub struct ReloadRequest {
    pub generation: u64,
    pub root: String,
    /// The files that changed.
    pub changed: Vec<String>,
    /// The files that are shown.
    pub known: Vec<String>,
    /// They were changed by someone else.
    pub external_change: bool,
}

/// `names` with those of `more` that are not among them.
pub fn add_names(names: &mut Vec<String>, more: &Vec<String>)
    ensures
        crate::text::views(final(names)@).to_set() == crate::text::views(old(names)@).to_set().union(
            crate::text::views(more@).to_set(),
        ),
{
    let mut i: usize = 0;
    let ghost first = crate::text::views(names@).to_set();
    let ghost all = crate::text::views(more@);
    proof {
        assert(all.take(0).to_set() =~= Set::empty());
        assert(first.union(Set::empty()) =~= first);
    }
    while i < more.len()
        invariant
            i <= more@.len(),
            all == crate::text::views(more@),
            crate::text::views(names@).to_set() == first.union(all.take(i as int).to_set()),
        decreases more@.len() - i,
    {
        let ghost before = crate::text::views(names@);
        let known = has_name(names, more[i].as_str());
        if !known {
            names.push(more[i].clone());
        }
        proof {
            let name = more@[i as int]@;
            lemma_more(all.take(i as int), name);
            assert(all.take(i + 1) =~= all.take(i as int).push(name));
            if known {
                assert(before.to_set().contains(name));
                assert(before.to_set() =~= first.union(all.take(i + 1).to_set()));
            } else {
                lemma_more(before, name);
                assert(crate::text::views(names@) =~= before.push(name));
                assert(crate::text::views(names@).to_set() =~= first.union(
                    all.take(i + 1).to_set(),
                ));
            }
        }
        i = i + 1;
    }
    proof {
        assert(all.take(all.len() as int) =~= all);
    }
}

proof fn lemma_more(names: Seq<Seq<char>>, name: Seq<char>)
    ensures
        names.push(name).to_set() == names.to_set().insert(name),
{
    let more = names.push(name);
    assert forall|n: Seq<char>| #[trigger] more.to_set().contains(n) <==> names.to_set().insert(
        name,
    ).contains(n) by {
        if more.contains(n) {
            let k = choose|k: int| 0 <= k < more.len() && more[k] == n;
            if k < names.len() {
                assert(names[k] == n);
            }
        }
        if names.contains(n) {
            let k = choose|k: int| 0 <= k < names.len() && names[k] == n;
            assert(more[k] == n);
        }
        assert(more[names.len() as int] == name);
    }
    assert(more.to_set() =~= names.to_set().insert(name));
}

/// The files that the first `n` requests name.
pub open spec fn named_by(requests: Seq<ReloadRequest>, n: nat) -> Set<Seq<char>>
    decreases n,
{
    if n == 0 {
        Set::empty()
    } else {
        named_by(requests, (n - 1) as nat).union(
            crate::text::views(requests[n - 1].changed@).to_set(),
        )
    }
}

/// One of the first `n` requests follows a change by someone else.
pub open spec fn any_external(requests: Seq<ReloadRequest>, n: nat) -> bool
    decreases n,
{
    n > 0 && (any_external(requests, (n - 1) as nat) || requests[n - 1].external_change)
}

/// The request that takes the place of several that came together: the last of them, for all
/// files that any of them names or that are still to be loaded. Those are remembered in `dirty`
/// until they are.
pub fn join_requests(requests: &Vec<ReloadRequest>, dirty: &mut Vec<String>) -> (r: ReloadRequest)
    requires
        requests@.len() > 0,
    ensures
        crate::text::views(final(dirty)@).to_set() == crate::text::views(old(dirty)@).to_set().union(
            named_by(requests@, requests@.len()),
        ),
        r.generation == requests@.last().generation,
        r.root@ == requests@.last().root@,
        crate::text::views(r.known@) == crate::text::views(requests@.last().known@),
        crate::text::views(r.changed@) == crate::text::views(final(dirty)@),
        r.external_change == any_external(requests@, requests@.len()),
{
    let mut i: usize = 0;
    let mut external_change: bool = false;
    let ghost first = crate::text::views(dirty@).to_set();
    proof {
        assert(first.union(Set::empty()) =~= first);
    }
    while i < requests.len()
        invariant
            i <= requests@.len(),
            external_change == any_external(requests@, i as nat),
            crate::text::views(dirty@).to_set() == first.union(named_by(requests@, i as nat)),
        decreases requests@.len() - i,
    {
        add_names(dirty, &requests[i].changed);
        proof {
            assert(first.union(named_by(requests@, i as nat)).union(
                crate::text::views(requests@[i as int].changed@).to_set(),
            ) =~= first.union(named_by(requests@, i as nat + 1)));
        }
        if requests[i].external_change {
            external_change = true;
        }
        i = i + 1;
    }
    let last = &requests[requests.len() - 1];
    ReloadRequest {
        generation: last.generation,
        root: last.root.clone(),
        changed: clone_names(dirty),
        known: clone_names(&last.known),
        external_change,
    }
}

/// A sheet is loaded: it changed, or it is not shown yet.
pub open spec fn is_loaded(request: ReloadRequest, key: Seq<char>) -> bool {
    crate::text::views(request.changed@).contains(key) || !crate::text::views(
        request.known@,
    ).contains(key)
}

/// What was loaded, by the files' names, and the sheets that the project has now.
pub struct ReloadBatch<T> {
    pub generation: u64,
    pub entries: Result<Vec<KeyedEntry>, String>,
    pub loaded: Vec<Keyed<Result<T, String>>>,
    pub external_change: bool,
}

/// A sheet of the project, with the name by which its file is told from others.
pub struct KeyedEntry {
    pub key: String,
    pub entry: HierarchyEntry,
}

/// Something of a file, under the file's name.
pub struct Keyed<T> {
    pub key: String,
    pub value: T,
}

/// Something of a file, as a value.
pub ghost struct Pair<T> {
    pub key: Seq<char>,
    pub value: T,
}

pub open spec fn pairs<T>(v: Seq<Keyed<T>>) -> Seq<Pair<T>> {
    v.map_values(|k: Keyed<T>| Pair { key: k.key@, value: k.value })
}

/// The places, among the first `n` entries, of those that are loaded.
pub open spec fn loaded_upto(request: ReloadRequest, entries: Seq<KeyedEntry>, n: nat) -> Seq<int>
    decreases n,
{
    if n == 0 {
        Seq::empty()
    } else {
        let before = loaded_upto(request, entries, (n - 1) as nat);
        if is_loaded(request, entries[n - 1].key@) {
            before.push(n - 1)
        } else {
            before
        }
    }
}

/// Loads what a request asks for, unless a later request makes it needless. `latest` tells the
/// number of the latest request, `load` loads a file.
pub fn build_reload_batch<T, G: Fn() -> u64, F: Fn(&String) -> Result<T, String>>(
    request: &ReloadRequest,
    entries: Result<Vec<KeyedEntry>, String>,
    latest: G,
    load: F,
) -> (r: Option<ReloadBatch<T>>)
    requires
        call_requires(latest, ()),
        forall|file: &String| #[trigger] call_requires(load, (file,)),
    ensures
        match r {
            None => exists|n: u64| #[trigger]
                call_ensures(latest, (), n) && n != request.generation,
            Some(batch) => {
                &&& call_ensures(latest, (), request.generation)
                &&& batch.generation == request.generation
                &&& batch.external_change == request.external_change
                &&& batch.entries == entries
                &&& match entries {
                    Err(_) => batch.loaded@.len() == 0,
                    Ok(all) => {
                        let places = loaded_upto(*request, all@, all@.len());
                        &&& batch.loaded@.len() == places.len()
                        &&& forall|k: int|
                            0 <= k < places.len() ==> {
                                let one = #[trigger] batch.loaded@[k];
                                &&& one.key@ == all@[places[k]].key@
                                &&& call_ensures(
                                    load,
                                    (&all@[places[k]].entry.file,),
                                    one.value,
                                )
                            }
                    },
                }
            },
        },
{
    let mut loaded: Vec<Keyed<Result<T, String>>> = Vec::new();
    if let Ok(all) = &entries {
        let now: u64 = latest();
        if now != request.generation {
            return None;
        }
        let mut i: usize = 0;
        while i < all.len()
            invariant
                i <= all@.len(),
                entries == Ok::<Vec<KeyedEntry>, String>(*all),
                call_requires(latest, ()),
                forall|file: &String| #[trigger] call_requires(load, (file,)),
                loaded@.len() == loaded_upto(*request, all@, i as nat).len(),
                forall|k: int|
                    0 <= k < loaded@.len() ==> {
                        let one = #[trigger] loaded@[k];
                        let place = loaded_upto(*request, all@, i as nat)[k];
                        &&& one.key@ == all@[place].key@
                        &&& call_ensures(load, (&all@[place].entry.file,), one.value)
                    },
            decreases all@.len() - i,
        {
            let key = all[i].key.as_str();
            if has_name(&request.changed, key) || !has_name(&request.known, key) {
                let now: u64 = latest();
                if now != request.generation {
                    return None;
                }
                let outcome = load(&all[i].entry.file);
                loaded.push(Keyed { key: all[i].key.clone(), value: outcome });
            }
            i = i + 1;
        }
    }
    let now: u64 = latest();
    if now != request.generation {
        return None;
    }
    Some(
        ReloadBatch {
            generation: request.generation,
            entries,
            loaded,
            external_change: request.external_change,
        },
    )
}

/// The last of the first `n` things of the given file.
pub open spec fn last_of<T>(all: Seq<Pair<T>>, key: Seq<char>, n: nat) -> Option<int>
    decreases n,
{
    if n == 0 {
        None
    } else if all[n - 1].key == key {
        Some(n - 1)
    } else {
        last_of(all, key, (n - 1) as nat)
    }
}

/// What there is of a file: of several things the last.
pub open spec fn of_file<T>(all: Seq<Pair<T>>, key: Seq<char>) -> Option<T> {
    match last_of(all, key, all.len()) {
        Some(i) => Some(all[i].value),
        None => None,
    }
}

fn find_last<T>(all: &Vec<Keyed<T>>, key: &str) -> (r: Option<usize>)
    ensures
        match r {
            Some(i) => i < all@.len() && of_file(pairs(all@), key@) == Some(all@[i as int].value),
            None => of_file(pairs(all@), key@) is None,
        },
{
    let ghost seen = pairs(all@);
    let mut n: usize = all.len();
    while n > 0
        invariant
            n <= all@.len(),
            seen == pairs(all@),
            last_of(seen, key@, seen.len()) == last_of(seen, key@, n as nat),
        decreases n,
    {
        assert(seen[n - 1].key == all@[n - 1].key@);
        if same(all[n - 1].key.as_str(), key) {
            return Some(n - 1);
        }
        n = n - 1;
    }
    None
}

fn reverse<T>(things: Vec<Keyed<T>>) -> (r: Vec<Keyed<T>>)
    ensures
        pairs(r@) == pairs(things@).reverse(),
{
    let ghost all = things@;
    let mut rest = things;
    let mut r: Vec<Keyed<T>> = Vec::new();
    while rest.len() > 0
        invariant
            rest@.len() + r@.len() == all.len(),
            forall|k: int| 0 <= k < rest@.len() ==> #[trigger] rest@[k] == all[k],
            forall|k: int| 0 <= k < r@.len() ==> #[trigger] r@[k] == all[all.len() - 1 - k],
        decreases rest@.len(),
    {
        if let Some(thing) = rest.pop() {
            r.push(thing);
        }
    }
    proof {
        assert(pairs(r@) =~= pairs(all).reverse());
    }
    r
}

/// What is shown of a sheet: its items as texts, its objects, and its drawing.
pub struct SheetBody<S> {
    pub items: Vec<ItemText>,
    pub objects: Vec<SceneObject>,
    pub drawing: S,
}

/// A sheet that is shown. Sheets of one file share what is shown of it.
pub struct ShownSheet<S> {
    pub name: String,
    pub depth: usize,
    pub file: String,
    pub key: String,
    pub body: Arc<SheetBody<S>>,
}

/// A sheet that is shown, as values.
pub ghost struct Shown<S> {
    pub name: Seq<char>,
    pub depth: nat,
    pub file: Seq<char>,
    pub key: Seq<char>,
    pub body: Arc<SheetBody<S>>,
}

impl<S> ShownSheet<S> {
    pub open spec fn model(self) -> Shown<S> {
        Shown {
            name: self.name@,
            depth: self.depth as nat,
            file: self.file@,
            key: self.key@,
            body: self.body,
        }
    }
}

pub open spec fn shown<S>(sheets: Seq<ShownSheet<S>>) -> Seq<Shown<S>> {
    sheets.map_values(|s: ShownSheet<S>| s.model())
}

/// The sheets that are shown, by their files.
pub open spec fn bodies<S>(sheets: Seq<Shown<S>>) -> Seq<Pair<Arc<SheetBody<S>>>> {
    sheets.map_values(|s: Shown<S>| Pair { key: s.key, value: s.body })
}

/// A change by someone else of a sheet that is shown: its name and file, and its items before
/// and after.
pub ghost struct Compared {
    pub name: Seq<char>,
    pub file: Seq<char>,
    pub before: Seq<ItemText>,
    pub after: Seq<ItemText>,
}

/// What became of the first entries of a project.
pub ghost struct Merged<S> {
    pub loaded: Seq<Pair<Result<Arc<SheetBody<S>>, String>>>,
    pub old: Seq<Pair<Arc<SheetBody<S>>>>,
    pub next: Seq<Shown<S>>,
    pub errors: Seq<Seq<char>>,
    pub compared: Seq<Compared>,
}

/// An entry of the project with what is shown of it.
pub open spec fn entered<S>(e: KeyedEntry, body: Arc<SheetBody<S>>) -> Shown<S> {
    Shown {
        name: e.entry.name@,
        depth: e.entry.depth as nat,
        file: e.entry.file@,
        key: e.key@,
        body,
    }
}

impl<S> Merged<S> {
    /// What becomes of one more entry. What was loaded of its file is shown. Where that failed,
    /// or nothing was loaded, what was shown before stays; and where nothing was, that is said.
    /// A change is compared once for each file.
    pub open spec fn with(self, e: KeyedEntry, by_others: bool) -> Merged<S> {
        let key = e.key@;
        let kept = match of_file(self.old, key) {
            Some(body) => self.next.push(entered(e, body)),
            None => self.next,
        };
        match of_file(self.loaded, key) {
            Some(Ok(body)) => Merged {
                next: self.next.push(entered(e, body)),
                compared: match of_file(self.old, key) {
                    Some(before) => if by_others && sheet_from(self.next, key, 0) is None {
                        self.compared.push(
                            Compared {
                                name: e.entry.name@,
                                file: e.entry.file@,
                                before: before.items@,
                                after: body.items@,
                            },
                        )
                    } else {
                        self.compared
                    },
                    None => self.compared,
                },
                ..self
            },
            Some(Err(error)) => Merged {
                next: kept,
                errors: self.errors.push(e.entry.name@ + ": "@ + error@),
                ..self
            },
            None => Merged {
                next: kept,
                errors: if of_file(self.old, key) is Some {
                    self.errors
                } else {
                    self.errors.push(e.entry.name@ + ": background reload returned no scene"@)
                },
                ..self
            },
        }
    }

    /// What becomes of the first `n` entries.
    pub open spec fn with_all(self, entries: Seq<KeyedEntry>, by_others: bool, n: nat) -> Merged<S>
        decreases n,
    {
        if n == 0 {
            self
        } else {
            self.with_all(entries, by_others, (n - 1) as nat).with(entries[n - 1], by_others)
        }
    }
}

/// What is said of a change by someone else, where anything is.
pub open spec fn tells(c: Compared, summary: Option<ExternalChangeSummary>) -> bool {
    crate::editor_model::summarizes(summary, c.name, c.before, c.after)
}

/// A change of a sheet that is told of.
pub struct ExternalChange {
    pub description: String,
    pub file: String,
    pub uuids: Vec<String>,
}

/// The changes that are told of are those of the first `n` comparisons of which something is
/// said.
pub open spec fn is_told(
    changes: Seq<ExternalChange>,
    compared: Seq<Compared>,
    said: Seq<Option<ExternalChangeSummary>>,
    n: nat,
) -> bool
    decreases n,
{
    if n == 0 {
        changes.len() == 0
    } else {
        match said[n - 1] {
            None => is_told(changes, compared, said, (n - 1) as nat),
            Some(summary) => {
                &&& changes.len() > 0
                &&& changes.last().description@ == summary.description@
                &&& changes.last().file@ == compared[n - 1].file
                &&& crate::text::views(changes.last().uuids@) == crate::text::views(
                    summary.changed_uuids@,
                )
                &&& is_told(changes.drop_last(), compared, said, (n - 1) as nat)
            },
        }
    }
}

/// The changes that are told of are those of which something is said, in order.
pub open spec fn all_told(changes: Seq<ExternalChange>, compared: Seq<Compared>) -> bool {
    exists|said: Seq<Option<ExternalChangeSummary>>|
        said.len() == compared.len() && (forall|i: int|
            0 <= i < said.len() ==> #[trigger] tells(compared[i], said[i])) && #[trigger] is_told(
            changes,
            compared,
            said,
            said.len(),
        )
}

/// What the sheets of a project become.
pub struct Reloaded<S> {
    pub sheets: Vec<ShownSheet<S>>,
    /// What went wrong, sheet by sheet.
    pub errors: Vec<String>,
    pub changes: Vec<ExternalChange>,
}

fn by_file<S>(sheets: Vec<ShownSheet<S>>) -> (r: Vec<Keyed<Arc<SheetBody<S>>>>)
    ensures
        pairs(r@) == bodies(shown(sheets@)),
{
    let ghost all = sheets@;
    let mut rest = sheets;
    let mut r: Vec<Keyed<Arc<SheetBody<S>>>> = Vec::new();
    while rest.len() > 0
        invariant
            rest@.len() + r@.len() == all.len(),
            forall|k: int| 0 <= k < rest@.len() ==> #[trigger] rest@[k] == all[k],
            forall|k: int|
                0 <= k < r@.len() ==> (#[trigger] r@[k]).key == all[all.len() - 1 - k].key
                    && r@[k].value == all[all.len() - 1 - k].body,
        decreases rest@.len(),
    {
        if let Some(sheet) = rest.pop() {
            r.push(Keyed { key: sheet.key, value: sheet.body });
        }
    }
    let r = reverse(r);
    proof {
        assert(pairs(r@) =~= bodies(shown(all)));
    }
    r
}

fn enter<S>(next: &mut Vec<ShownSheet<S>>, e: &KeyedEntry, body: Arc<SheetBody<S>>)
    ensures
        shown(final(next)@) == shown(old(next)@).push(entered(*e, body)),
{
    let ghost before = shown(next@);
    let sheet = ShownSheet {
        name: e.entry.name.clone(),
        depth: e.entry.depth,
        file: e.entry.file.clone(),
        key: e.key.clone(),
        body,
    };
    next.push(sheet);
    proof {
        assert(shown(next@) =~= before.push(sheet.model()));
    }
}

fn blame(errors: &mut Vec<String>, name: &str, error: &str)
    ensures
        crate::text::views(final(errors)@) == crate::text::views(old(errors)@).push(
            name@ + error@,
        ),
{
    let ghost before = crate::text::views(errors@);
    let mut message = name.to_owned();
    message.append(error);
    errors.push(message);
    proof {
        assert(crate::text::views(errors@) =~= before.push(message@));
    }
}

proof fn lemma_told_more(
    changes: Seq<ExternalChange>,
    compared: Seq<Compared>,
    said: Seq<Option<ExternalChangeSummary>>,
    c: Compared,
    s: Option<ExternalChangeSummary>,
    n: nat,
)
    requires
        n <= said.len(),
        said.len() == compared.len(),
    ensures
        is_told(changes, compared.push(c), said.push(s), n) == is_told(changes, compared, said, n),
    decreases n,
{
    if n > 0 {
        lemma_told_more(changes, compared, said, c, s, (n - 1) as nat);
        lemma_told_more(changes.drop_last(), compared, said, c, s, (n - 1) as nat);
    }
}

fn tell(
    changes: &mut Vec<ExternalChange>,
    e: &KeyedEntry,
    before: &Vec<ItemText>,
    after: &Vec<ItemText>,
    Ghost(compared): Ghost<Seq<Compared>>,
    Ghost(said): Ghost<Seq<Option<ExternalChangeSummary>>>,
) -> (r: Ghost<Option<ExternalChangeSummary>>)
    requires
        said.len() == compared.len(),
        is_told(old(changes)@, compared, said, said.len()),
    ensures
        ({
            let c = Compared {
                name: e.entry.name@,
                file: e.entry.file@,
                before: before@,
                after: after@,
            };
            &&& tells(c, r@)
            &&& is_told(final(changes)@, compared.push(c), said.push(r@), said.len() + 1)
        }),
{
    let ghost c = Compared {
        name: e.entry.name@,
        file: e.entry.file@,
        before: before@,
        after: after@,
    };
    let summary = summarize_external_change(e.entry.name.as_str(), before, after);
    let ghost s = summary;
    proof {
        lemma_told_more(changes@, compared, said, c, s, said.len());
    }
    let ghost old_changes = changes@;
    if let Some(summary) = summary {
        changes.push(
            ExternalChange {
                description: summary.description,
                file: e.entry.file.clone(),
                uuids: summary.changed_uuids,
            },
        );
        proof {
            assert(changes@.drop_last() =~= old_changes);
        }
    }
    Ghost(s)
}

/// Puts what was loaded in the place of what is shown: the sheets that the project has now, each
/// with what was loaded of it or what was shown of it before.
pub fn merge_sheets<S>(
    sheets: Vec<ShownSheet<S>>,
    entries: &Vec<KeyedEntry>,
    loaded: Vec<Keyed<Result<Arc<SheetBody<S>>, String>>>,
    by_others: bool,
) -> (r: Reloaded<S>)
    ensures
        ({
            let merged = (Merged {
                loaded: pairs(loaded@),
                old: bodies(shown(sheets@)),
                next: Seq::empty(),
                errors: Seq::empty(),
                compared: Seq::empty(),
            }).with_all(entries@, by_others, entries@.len());
            &&& shown(r.sheets@) == merged.next
            &&& crate::text::views(r.errors@) == merged.errors
            &&& all_told(r.changes@, merged.compared)
        }),
{
    let ghost start = Merged {
        loaded: pairs(loaded@),
        old: bodies(shown(sheets@)),
        next: Seq::<Shown<S>>::empty(),
        errors: Seq::<Seq<char>>::empty(),
        compared: Seq::<Compared>::empty(),
    };
    let old = by_file(sheets);
    let mut next: Vec<ShownSheet<S>> = Vec::new();
    let mut errors: Vec<String> = Vec::new();
    let mut changes: Vec<ExternalChange> = Vec::new();
    let mut said: Ghost<Seq<Option<ExternalChangeSummary>>> = Ghost(Seq::empty());
    let mut i: usize = 0;
    proof {
        assert(shown(next@) =~= Seq::<Shown<S>>::empty());
        assert(crate::text::views(errors@) =~= Seq::<Seq<char>>::empty());
    }
    while i < entries.len()
        invariant
            i <= entries@.len(),
            ({
                let merged = start.with_all(entries@, by_others, i as nat);
                &&& pairs(loaded@) == merged.loaded
                &&& pairs(old@) == merged.old
                &&& shown(next@) == merged.next
                &&& crate::text::views(errors@) == merged.errors
                &&& said@.len() == merged.compared.len()
                &&& forall|k: int|
                    0 <= k < said@.len() ==> #[trigger] tells(merged.compared[k], said@[k])
                &&& is_told(changes@, merged.compared, said@, said@.len())
            }),
        decreases entries@.len() - i,
    {
        let e = &entries[i];
        let key = e.key.as_str();
        let ghost merged = start.with_all(entries@, by_others, i as nat);
        match find_last(&loaded, key) {
            Some(at) => match &loaded[at].value {
                Ok(body) => {
                    if by_others && find_sheet(&next, key).is_none() {
                        if let Some(was) = find_last(&old, key) {
                            let s = tell(
                                &mut changes,
                                e,
                                &old[was].value.items,
                                &body.items,
                                Ghost(merged.compared),
                                Ghost(said@),
                            );
                            proof {
                                said@ = said@.push(s@);
                            }
                        }
                    }
                    enter(&mut next, e, body.clone());
                },
                Err(error) => {
                    let mut reason = ": ".to_owned();
                    reason.append(error.as_str());
                    blame(&mut errors, e.entry.name.as_str(), reason.as_str());
                    proof {
                        assert(e.entry.name@ + (": "@ + error@) =~= e.entry.name@ + ": "@ + error@);
                    }
                    if let Some(was) = find_last(&old, key) {
                        enter(&mut next, e, old[was].value.clone());
                    }
                },
            },
            None => match find_last(&old, key) {
                Some(was) => {
                    enter(&mut next, e, old[was].value.clone());
                },
                None => {
                    blame(
                        &mut errors,
                        e.entry.name.as_str(),
                        ": background reload returned no scene",
                    );
                },
            },
        }
        i = i + 1;
    }
    proof {
        let merged = start.with_all(entries@, by_others, entries@.len());
        assert(is_told(changes@, merged.compared, said@, said@.len()));
        assert(all_told(changes@, merged.compared));
    }
    Reloaded { sheets: next, errors, changes }
}

/// The first sheet from the `i`-th on of the given file.
pub open spec fn sheet_from<S>(sheets: Seq<Shown<S>>, key: Seq<char>, i: nat) -> Option<nat>
    decreases sheets.len() - i,
{
    if i >= sheets.len() {
        None
    } else if sheets[i as int].key == key {
        Some(i)
    } else {
        sheet_from(sheets, key, i + 1)
    }
}

/// The first sheet of the given file.
pub fn find_sheet<S>(sheets: &Vec<ShownSheet<S>>, key: &str) -> (r: Option<usize>)
    ensures
        match r {
            Some(i) => i < sheets@.len() && sheet_from(shown(sheets@), key@, 0) == Some(i as nat),
            None => sheet_from(shown(sheets@), key@, 0) is None,
        },
{
    let ghost all = shown(sheets@);
    let mut i: usize = 0;
    while i < sheets.len()
        invariant
            i <= sheets@.len(),
            all == shown(sheets@),
            sheet_from(all, key@, 0) == sheet_from(all, key@, i as nat),
        decreases sheets@.len() - i,
    {
        assert(all[i as int].key == sheets@[i as int].key@);
        if same(sheets[i].key.as_str(), key) {
            return Some(i);
        }
        i = i + 1;
    }
    None
}

/// The sheet that is shown after loading: the one that was, where it is still there, else the
/// first.
pub open spec fn active_after<S>(before: Seq<Shown<S>>, active: int, after: Seq<Shown<S>>) -> nat {
    if 0 <= active < before.len() {
        match sheet_from(after, before[active].key, 0) {
            Some(i) => i,
            None => 0,
        }
    } else {
        0
    }
}

/// What came of loading.
pub enum Applied<S> {
    /// A later request makes it needless: all stays as it is.
    Superseded(Vec<ShownSheet<S>>),
    /// The project could not be read; all stays as it is, and this is said.
    Failed(Vec<ShownSheet<S>>, String),
    /// The sheets, and the one that is shown.
    Loaded(Reloaded<S>, usize),
}

/// Puts what was loaded in the place of what is shown, unless there is a later request. Of what
/// is selected, what is still on the sheet that is shown stays so.
pub fn apply_reload_batch<S>(
    latest: u64,
    batch: ReloadBatch<Arc<SheetBody<S>>>,
    sheets: Vec<ShownSheet<S>>,
    active: usize,
    selection: &mut Selection,
) -> (r: Applied<S>)
    requires
        old(selection).wf(),
    ensures
        final(selection).wf(),
        match r {
            Applied::Superseded(same_sheets) => {
                &&& batch.generation != latest
                &&& same_sheets == sheets
                &&& *final(selection) == *old(selection)
            },
            Applied::Failed(same_sheets, status) => {
                &&& batch.generation == latest
                &&& batch.entries matches Err(e) && status@ == "Hierarchy reload failed: "@ + e@
                &&& same_sheets == sheets
                &&& *final(selection) == *old(selection)
            },
            Applied::Loaded(reloaded, now) => {
                &&& batch.generation == latest
                &&& batch.entries matches Ok(entries) && {
                    let merged = (Merged {
                        loaded: pairs(batch.loaded@),
                        old: bodies(shown(sheets@)),
                        next: Seq::empty(),
                        errors: Seq::empty(),
                        compared: Seq::empty(),
                    }).with_all(entries@, batch.external_change, entries@.len());
                    &&& shown(reloaded.sheets@) == merged.next
                    &&& crate::text::views(reloaded.errors@) == merged.errors
                    &&& all_told(reloaded.changes@, merged.compared)
                    &&& now == active_after(shown(sheets@), active as int, merged.next)
                    &&& forall|uuid: Seq<char>| #[trigger]
                        final(selection)@.contains(uuid) <==> old(selection)@.contains(uuid) && now
                            < merged.next.len() && crate::selection::names_object(
                            merged.next[now as int].body.objects@,
                            uuid,
                        )
                }
            },
        },
{
    if batch.generation != latest {
        return Applied::Superseded(sheets);
    }
    let by_others = batch.external_change;
    let entries = match batch.entries {
        Ok(entries) => entries,
        Err(e) => {
            let mut status = "Hierarchy reload failed: ".to_owned();
            status.append(e.as_str());
            return Applied::Failed(sheets, status);
        },
    };
    let ghost before = shown(sheets@);
    let active_key: Option<String> = if active < sheets.len() {
        assert(before[active as int].key == sheets@[active as int].key@);
        Some(sheets[active].key.clone())
    } else {
        None
    };
    let reloaded = merge_sheets(sheets, &entries, batch.loaded, by_others);
    let now: usize = match &active_key {
        Some(key) => match find_sheet(&reloaded.sheets, key.as_str()) {
            Some(i) => i,
            None => 0,
        },
        None => 0,
    };
    if now < reloaded.sheets.len() {
        assert(shown(reloaded.sheets@)[now as int].body == reloaded.sheets@[now as int].body);
        selection.keep_present(&reloaded.sheets[now].body.objects);
    } else {
        selection.clear();
    }
    Applied::Loaded(reloaded, now)
}

/// Messages, with semicolons between them.
pub open spec fn in_a_row(messages: Seq<Seq<char>>, n: nat) -> Seq<char>
    decreases n,
{
    if n == 0 {
        Seq::empty()
    } else if n == 1 {
        messages[0]
    } else {
        in_a_row(messages, (n - 1) as nat) + "; "@ + messages[n - 1]
    }
}

fn join_messages(messages: &Vec<String>) -> (r: String)
    ensures
        r@ == in_a_row(crate::text::views(messages@), messages@.len()),
{
    let ghost all = crate::text::views(messages@);
    let mut r = String::new();
    let mut i: usize = 0;
    assert(r@ =~= in_a_row(all, 0));
    while i < messages.len()
        invariant
            i <= messages@.len(),
            all == crate::text::views(messages@),
            r@ == in_a_row(all, i as nat),
        decreases messages@.len() - i,
    {
        assert(all[i as int] == messages@[i as int]@);
        if i == 0 {
            r = messages[0].clone();
        } else {
            r.append("; ");
            r.append(messages[i].as_str());
        }
        i = i + 1;
    }
    r
}

/// What is said after loading: of conflicts with what is staged before all, then of what went
/// wrong, then of the changes that others made.
pub fn reload_status(
    session: &EditSession,
    errors: &Vec<String>,
    changes: usize,
    live: String,
) -> (r: String)
    requires
        session.wf(),
    ensures
        r@ == (if session.conflicts().len() > 0 {
            "Commit blocked · "@ + crate::text::decimal(session.conflicts().len())
                + " staged file(s) changed externally; Discard to load them"@
        } else if errors@.len() > 0 {
            "Render error: "@ + in_a_row(crate::text::views(errors@), errors@.len())
        } else if changes > 0 {
            "External schematic update loaded · review summary · Esc dismisses"@
        } else {
            live@
        }),
{
    if session.is_conflicted() {
        let mut r = "Commit blocked · ".to_owned();
        r.append(to_decimal(session.conflicted_count() as u128).as_str());
        r.append(" staged file(s) changed externally; Discard to load them");
        return r;
    }
    if errors.len() > 0 {
        let mut r = "Render error: ".to_owned();
        r.append(join_messages(errors).as_str());
        return r;
    }
    if changes > 0 {
        return "External schematic update loaded · review summary · Esc dismisses".to_owned();
    }
    live
}

/// Where a file's own last change was written by this program, whether its text is still that.
#[derive(Clone, Copy, PartialEq, Eq, Structural, Debug)]
pub enum Written {
    /// This program did not write it.
    Never,
    /// It is as this program wrote it.
    AsWritten,
    /// It has changed since.
    Changed,
}

/// The files, among the first `n`, that others changed.
pub open spec fn by_others_upto(written: Seq<Written>, n: nat) -> Seq<int>
    decreases n,
{
    if n == 0 {
        Seq::empty()
    } else if written[n - 1] == Written::AsWritten {
        by_others_upto(written, (n - 1) as nat)
    } else {
        by_others_upto(written, (n - 1) as nat).push(n - 1)
    }
}

/// The places of the files that others changed: all but those that are as this program wrote
/// them.
pub fn external_paths(written: &Vec<Written>) -> (r: Vec<usize>)
    ensures
        r@.map_values(|i: usize| i as int) == by_others_upto(written@, written@.len()),
        forall|k: int| 0 <= k < r@.len() ==> (#[trigger] r@[k]) < written@.len(),
{
    let mut r: Vec<usize> = Vec::new();
    let mut i: usize = 0;
    assert(r@.map_values(|i: usize| i as int) =~= by_others_upto(written@, 0));
    while i < written.len()
        invariant
            i <= written@.len(),
            r@.map_values(|i: usize| i as int) == by_others_upto(written@, i as nat),
            forall|k: int| 0 <= k < r@.len() ==> (#[trigger] r@[k]) < i,
        decreases written@.len() - i,
    {
        if written[i] != Written::AsWritten {
            let ghost before = r@.map_values(|i: usize| i as int);
            r.push(i);
            assert(r@.map_values(|i: usize| i as int) =~= before.push(i as int));
        }
        i = i + 1;
    }
    r
}

/// What follows when files change from outside.
pub struct FilesChanged {
    pub status: String,
    /// The places of the files that are loaded again.
    pub reload: Vec<usize>,
}

/// The places, among the first `n`, of the files of which nothing is staged.
pub open spec fn unstaged_upto(
    staged: Map<Seq<char>, crate::edit_session::Staged>,
    keys: Seq<Seq<char>>,
    n: nat,
) -> Seq<int>
    decreases n,
{
    if n == 0 {
        Seq::empty()
    } else if staged.contains_key(keys[n - 1]) {
        unstaged_upto(staged, keys, (n - 1) as nat)
    } else {
        unstaged_upto(staged, keys, (n - 1) as nat).push(n - 1)
    }
}

/// Takes note that files changed from outside: those that are staged are in conflict and keep
/// what is staged, the others are loaded again.
pub fn note_external_change(session: &mut EditSession, keys: &Vec<String>) -> (r: FilesChanged)
    requires
        old(session).wf(),
    ensures
        final(session).wf(),
        final(session).editing() == old(session).editing(),
        final(session).staged() == old(session).staged(),
        final(session).conflicts() == old(session).conflicts().union(
            crate::text::views(keys@).to_set().intersect(old(session).staged().dom()),
        ),
        r.reload@.map_values(|i: usize| i as int) == unstaged_upto(
            old(session).staged(),
            crate::text::views(keys@),
            keys@.len(),
        ),
        ({
            let more = final(session).conflicts().len() - old(session).conflicts().len();
            r.status@ == (if more > 0 {
                "External change overlaps "@ + crate::text::decimal(more as nat)
                    + " staged file(s) · Commit blocked; Discard to load it"@
            } else {
                "Change detected · rendering directly…"@
            })
        }),
{
    let conflicts: usize = session.mark_external_change(keys);
    let mut reload: Vec<usize> = Vec::new();
    let ghost names = crate::text::views(keys@);
    let mut i: usize = 0;
    assert(reload@.map_values(|i: usize| i as int) =~= unstaged_upto(session.staged(), names, 0));
    while i < keys.len()
        invariant
            i <= keys@.len(),
            session.wf(),
            names == crate::text::views(keys@),
            reload@.map_values(|i: usize| i as int) == unstaged_upto(
                session.staged(),
                names,
                i as nat,
            ),
        decreases keys@.len() - i,
    {
        assert(names[i as int] == keys@[i as int]@);
        if session.staged_source(keys[i].as_str()).is_none() {
            let ghost before = reload@.map_values(|i: usize| i as int);
            reload.push(i);
            assert(reload@.map_values(|i: usize| i as int) =~= before.push(i as int));
        }
        i = i + 1;
    }
    let status = if conflicts > 0 {
        let mut s = "External change overlaps ".to_owned();
        s.append(to_decimal(conflicts as u128).as_str());
        s.append(" staged file(s) · Commit blocked; Discard to load it");
        s
    } else {
        "Change detected · rendering directly…".to_owned()
    };
    FilesChanged { status, reload }
}

/// The names that are among `names` and not among `others`, in order.
pub open spec fn only_in(names: Seq<Seq<char>>, others: Seq<Seq<char>>, n: nat) -> Seq<Seq<char>>
    decreases n,
{
    if n == 0 {
        Seq::empty()
    } else if others.contains(names[n - 1]) {
        only_in(names, others, (n - 1) as nat)
    } else {
        only_in(names, others, (n - 1) as nat).push(names[n - 1])
    }
}

/// The names that are among `names` and not among `others`: the directories that are to be
/// watched and are not yet, or that are watched and need not be.
pub fn names_only_in(names: &Vec<String>, others: &Vec<String>) -> (r: Vec<String>)
    ensures
        crate::text::views(r@) == only_in(
            crate::text::views(names@),
            crate::text::views(others@),
            names@.len(),
        ),
{
    let ghost all = crate::text::views(names@);
    let ghost known = crate::text::views(others@);
    let mut r: Vec<String> = Vec::new();
    let mut i: usize = 0;
    assert(crate::text::views(r@) =~= only_in(all, known, 0));
    while i < names.len()
        invariant
            i <= names@.len(),
            all == crate::text::views(names@),
            known == crate::text::views(others@),
            crate::text::views(r@) == only_in(all, known, i as nat),
        decreases names@.len() - i,
    {
        assert(all[i as int] == names@[i as int]@);
        if !has_name(others, names[i].as_str()) {
            let ghost before = crate::text::views(r@);
            r.push(names[i].clone());
            assert(crate::text::views(r@) =~= before.push(all[i as int]));
        }
        i = i + 1;
    }
    r
}

/// What is shown of a file after loading: what was loaded of it, else what was shown of it before.
pub open spec fn body_after<S>(
    loaded: Seq<Pair<Result<Arc<SheetBody<S>>, String>>>,
    old: Seq<Pair<Arc<SheetBody<S>>>>,
    key: Seq<char>,
) -> Option<Arc<SheetBody<S>>> {
    match of_file(loaded, key) {
        Some(Ok(body)) => Some(body),
        _ => of_file(old, key),
    }
}

/// No sheet is lost: where each entry of the project was loaded or was shown before, there is one
/// page for each, in order. A page whose file was loaded shows what was loaded of it, however many
/// pages the file has, and every other page what was shown of its file before.
pub proof fn every_entry_is_shown<S>(
    start: Merged<S>,
    entries: Seq<KeyedEntry>,
    by_others: bool,
    n: nat,
)
    requires
        n <= entries.len(),
        start.next.len() == 0,
        forall|i: int|
            0 <= i < entries.len() ==> body_after(
                start.loaded,
                start.old,
                (#[trigger] entries[i]).key@,
            ) is Some,
    ensures
        ({
            let after = start.with_all(entries, by_others, n);
            &&& after.loaded == start.loaded
            &&& after.old == start.old
            &&& after.next.len() == n
            &&& forall|i: int|
                0 <= i < n ==> #[trigger] after.next[i] == entered(
                    entries[i],
                    body_after(start.loaded, start.old, entries[i].key@)->0,
                )
        }),
    decreases n,
{
    if n > 0 {
        every_entry_is_shown(start, entries, by_others, (n - 1) as nat);
        assert(body_after(start.loaded, start.old, entries[n - 1].key@) is Some);
    }
}

} // verus!
