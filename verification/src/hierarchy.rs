//! The sheets of a project, found from its root sheet down.
//!
//! What a sheet's file holds is looked up while the hierarchy is walked, so the walk asks a
//! function for it, and no two questions need get answers of one moment. The contract speaks
//! of the answers that were given.

use crate::readers::sheet_property;
use crate::sexp::Node;
use crate::text::has_name;
use vstd::prelude::*;

verus! {

/// Sheets are nested no deeper.
pub const DEEPEST: usize = 20;

/// A sheet of the project.
pub struct HierarchyEntry {
    pub name: String,
    pub depth: usize,
    pub file: String,
}

/// A sheet of the project, as values.
#[verifier::ext_equal]
pub ghost struct Listed {
    pub name: Seq<char>,
    pub depth: nat,
    pub file: Seq<char>,
}

impl HierarchyEntry {
    pub open spec fn model(self) -> Listed {
        Listed { name: self.name@, depth: self.depth as nat, file: self.file@ }
    }
}

pub open spec fn entries(v: Seq<HierarchyEntry>) -> Seq<Listed> {
    v.map_values(|e: HierarchyEntry| e.model())
}

/// A file that was found: its path, the name by which it is told from others, the directory
/// that the files it names are looked up in, and the schematic in it, where it holds one.
pub struct Arrival {
    pub path: String,
    pub key: String,
    pub directory: String,
    pub schematic: Option<Node>,
}

/// The names and files of the first `n` of `sheets`, those without a file left out.
pub open spec fn named_upto(sheets: Seq<crate::sexp::Sexp>, n: nat) -> Seq<(Seq<char>, Seq<char>)>
    decreases n,
{
    if n == 0 {
        Seq::empty()
    } else {
        let before = named_upto(sheets, (n - 1) as nat);
        match crate::readers::sheet_value(sheets[n - 1], "Sheetfile"@) {
            None => before,
            Some(file) => before.push(
                (
                    match crate::readers::sheet_value(sheets[n - 1], "Sheetname"@) {
                        Some(name) => name,
                        None => file,
                    },
                    file,
                ),
            ),
        }
    }
}

/// The names and files of the sheets that a file places, in order.
pub open spec fn children_of(at: Arrival) -> Seq<(Seq<char>, Seq<char>)> {
    match at.schematic {
        Some(root) => {
            let sheets = root@.tagged("sheet"@);
            named_upto(sheets, sheets.len())
        },
        None => Seq::empty(),
    }
}

/// What became of the visit of a file: nothing was listed, or the file was and each sheet on
/// it was followed.
pub ghost enum Walk {
    Stop,
    Enter(Seq<Leg>),
}

/// A sheet that was followed: what was asked, what was answered, and what became of it.
pub ghost struct Leg {
    pub directory: String,
    pub file: String,
    pub found: Option<Arrival>,
    pub walk: Walk,
}

/// `w` is a visit of the file `at`, `depth` sheets below the root, with the answers of `look`.
pub open spec fn is_walk<F: Fn(&String, &String) -> Option<Arrival>>(
    look: F,
    at: Arrival,
    depth: nat,
    above: Seq<Seq<char>>,
    w: Walk,
) -> bool
    decreases DEEPEST + 1 - depth,
{
    if depth > DEEPEST || above.contains(at.key@) {
        w is Stop
    } else {
        let children = children_of(at);
        match w {
            Walk::Stop => false,
            Walk::Enter(legs) => {
                &&& legs.len() == children.len()
                &&& forall|i: int|
                    0 <= i < legs.len() ==> {
                        let leg = #[trigger] legs[i];
                        &&& leg.directory@ == at.directory@
                        &&& leg.file@ == children[i].1
                        &&& call_ensures(look, (&leg.directory, &leg.file), leg.found)
                        &&& match leg.found {
                            None => leg.walk is Stop,
                            Some(next) => is_walk(
                                look,
                                next,
                                depth + 1,
                                above.push(at.key@),
                                leg.walk,
                            ),
                        }
                    }
            },
        }
    }
}

/// What the visit of a file lists: the file, and what each sheet on it lists.
pub open spec fn listed(at: Arrival, name: Seq<char>, depth: nat, w: Walk) -> Seq<Listed>
    decreases DEEPEST + 1 - depth, 0nat,
{
    match w {
        Walk::Stop => Seq::empty(),
        Walk::Enter(legs) => if depth > DEEPEST {
            Seq::empty()
        } else {
            seq![Listed { name, depth, file: at.path@ }] + listed_below(
                children_of(at),
                depth,
                legs,
                legs.len(),
            )
        },
    }
}

/// What the first `n` sheets on a file list.
pub open spec fn listed_below(
    children: Seq<(Seq<char>, Seq<char>)>,
    depth: nat,
    legs: Seq<Leg>,
    n: nat,
) -> Seq<Listed>
    decreases DEEPEST - depth, n + 1,
{
    if n == 0 || depth > DEEPEST {
        Seq::empty()
    } else {
        listed_below(children, depth, legs, (n - 1) as nat) + match legs[n - 1].found {
            Some(next) => listed(next, children[n - 1].0, depth + 1, legs[n - 1].walk),
            None => Seq::empty(),
        }
    }
}

/// `look` can be asked for any file.
pub open spec fn can_look<F: Fn(&String, &String) -> Option<Arrival>>(look: F) -> bool {
    forall|directory: &String, file: &String| #[trigger] call_requires(look, (directory, file))
}

struct Child {
    name: String,
    file: String,
}

spec fn child_names(v: Seq<Child>) -> Seq<(Seq<char>, Seq<char>)> {
    v.map_values(|c: Child| (c.name@, c.file@))
}

fn list_children(at: &Arrival) -> (r: Vec<Child>)
    ensures
        child_names(r@) == children_of(*at),
{
    let mut r: Vec<Child> = Vec::new();
    if let Some(root) = &at.schematic {
        let sheets = root.find_all("sheet");
        let ghost all = root@.tagged("sheet"@);
        let mut i: usize = 0;
        assert(child_names(r@) =~= named_upto(all, 0));
        while i < sheets.len()
            invariant
                i <= sheets@.len(),
                crate::sexp::ref_sexps(sheets@) == all,
                child_names(r@) == named_upto(all, i as nat),
            decreases sheets@.len() - i,
        {
            let sheet = sheets[i];
            assert(all[i as int] == sheet@);
            let ghost before = r@;
            if let Some(file) = sheet_property(sheet, "Sheetfile") {
                let name = match sheet_property(sheet, "Sheetname") {
                    Some(name) => name,
                    None => file,
                };
                r.push(Child { name: name.to_owned(), file: file.to_owned() });
                proof {
                    assert(child_names(r@) =~= child_names(before).push((name@, file@)));
                }
            }
            i = i + 1;
        }
    } else {
        assert(child_names(r@) =~= Seq::empty());
    }
    r
}

fn visit<F: Fn(&String, &String) -> Option<Arrival>>(
    look: &F,
    at: &Arrival,
    name: &str,
    depth: usize,
    above: &mut Vec<String>,
    output: &mut Vec<HierarchyEntry>,
) -> (w: Ghost<Walk>)
    requires
        can_look(*look),
        depth <= DEEPEST + 1,
    ensures
        is_walk(*look, *at, depth as nat, crate::text::views(old(above)@), w@),
        entries(final(output)@) == entries(old(output)@) + listed(*at, name@, depth as nat, w@),
        final(above)@ == old(above)@,
    decreases DEEPEST + 1 - depth,
{
    if depth > DEEPEST || has_name(above, at.key.as_str()) {
        proof {
            assert(entries(output@) =~= entries(output@) + listed(*at, name@, depth as nat, Walk::Stop));
        }
        return Ghost(Walk::Stop);
    }
    let ghost start = entries(output@);
    let ghost keys = crate::text::views(above@);
    output.push(HierarchyEntry { name: name.to_owned(), depth, file: at.path.clone() });
    let ghost first = Listed { name: name@, depth: depth as nat, file: at.path@ };
    proof {
        assert(entries(output@) =~= start.push(first));
    }
    above.push(at.key.clone());
    let ghost inner = above@;
    proof {
        assert(crate::text::views(above@) =~= keys.push(at.key@));
    }
    let children = list_children(at);
    let ghost named = children_of(*at);
    let mut legs: Ghost<Seq<Leg>> = Ghost(Seq::empty());
    let mut i: usize = 0;
    proof {
        assert(start.push(first) =~= start.push(first) + listed_below(named, depth as nat, legs@, 0));
    }
    while i < children.len()
        invariant
            i <= children@.len(),
            can_look(*look),
            depth <= DEEPEST,
            above@ == inner,
            crate::text::views(inner) == keys.push(at.key@),
            child_names(children@) == named,
            legs@.len() == i,
            entries(output@) == start.push(first) + listed_below(named, depth as nat, legs@, i as nat),
            forall|k: int|
                0 <= k < i ==> {
                    let leg = #[trigger] legs@[k];
                    &&& leg.directory@ == at.directory@
                    &&& leg.file@ == named[k].1
                    &&& call_ensures(*look, (&leg.directory, &leg.file), leg.found)
                    &&& match leg.found {
                        None => leg.walk is Stop,
                        Some(next) => is_walk(
                            *look,
                            next,
                            depth as nat + 1,
                            keys.push(at.key@),
                            leg.walk,
                        ),
                    }
                },
        decreases children@.len() - i,
    {
        let child = &children[i];
        assert(named[i as int] == (child.name@, child.file@));
        let found = look(&at.directory, &child.file);
        let ghost before = legs@;
        let ghost so_far = entries(output@);
        match &found {
            None => {
                proof {
                    let leg = Leg {
                        directory: at.directory,
                        file: child.file,
                        found,
                        walk: Walk::Stop,
                    };
                    legs@ = legs@.push(leg);
                    lemma_below(named, depth as nat, before, leg, i as nat);
                    assert(so_far + Seq::<Listed>::empty() =~= so_far);
                }
            },
            Some(next) => {
                let w = visit(look, next, child.name.as_str(), depth + 1, above, output);
                proof {
                    let leg = Leg { directory: at.directory, file: child.file, found, walk: w@ };
                    legs@ = legs@.push(leg);
                    lemma_below(named, depth as nat, before, leg, i as nat);
                    let more = listed(*next, child.name@, depth as nat + 1, w@);
                    assert((start.push(first) + listed_below(named, depth as nat, before, i as nat))
                        + more =~= start.push(first) + (listed_below(
                        named,
                        depth as nat,
                        before,
                        i as nat,
                    ) + more));
                }
            },
        }
        i = i + 1;
    }
    above.pop();
    proof {
        assert(above@ =~= old(above)@);
        let w = Walk::Enter(legs@);
        assert(start.push(first) + listed_below(named, depth as nat, legs@, legs@.len()) =~= start
            + (seq![first] + listed_below(named, depth as nat, legs@, legs@.len())));
    }
    Ghost(Walk::Enter(legs@))
}

/// One more leg lists what was listed before, and what it lists itself.
proof fn lemma_below(
    children: Seq<(Seq<char>, Seq<char>)>,
    depth: nat,
    legs: Seq<Leg>,
    leg: Leg,
    n: nat,
)
    requires
        n == legs.len(),
        depth <= DEEPEST,
    ensures
        listed_below(children, depth, legs.push(leg), n + 1) == listed_below(children, depth, legs, n)
            + match leg.found {
            Some(next) => listed(next, children[n as int].0, depth + 1, leg.walk),
            None => Seq::empty(),
        },
{
    lemma_prefix(children, depth, legs, leg, n);
}

proof fn lemma_prefix(
    children: Seq<(Seq<char>, Seq<char>)>,
    depth: nat,
    legs: Seq<Leg>,
    leg: Leg,
    n: nat,
)
    requires
        n <= legs.len(),
    ensures
        listed_below(children, depth, legs.push(leg), n) == listed_below(children, depth, legs, n),
    decreases n,
{
    if n > 0 {
        lemma_prefix(children, depth, legs, leg, (n - 1) as nat);
    }
}

/// The sheets of the project whose root sheet is `root`, each before the sheets on it. A file
/// is not listed below itself, nor deeper than twenty sheets.
pub fn discover_hierarchy<F: Fn(&String, &String) -> Option<Arrival>>(
    root: &Arrival,
    stem: &Option<String>,
    look: F,
) -> (r: Vec<HierarchyEntry>)
    requires
        can_look(look),
    ensures
        exists|w: Walk| #[trigger]
            is_walk(look, *root, 0, Seq::empty(), w) && entries(r@) == listed(
                *root,
                match *stem {
                    Some(stem) => stem@,
                    None => "schematic"@,
                },
                0,
                w,
            ),
{
    let name = match stem {
        Some(stem) => stem.clone(),
        None => "schematic".to_owned(),
    };
    let mut above: Vec<String> = Vec::new();
    let mut output: Vec<HierarchyEntry> = Vec::new();
    proof {
        assert(crate::text::views(above@) =~= Seq::empty());
        assert(entries(output@) =~= Seq::empty());
    }
    let w = visit(&look, root, name.as_str(), 0, &mut above, &mut output);
    proof {
        assert(Seq::<Listed>::empty() + listed(*root, name@, 0, w@) =~= listed(
            *root,
            name@,
            0,
            w@,
        ));
        assert(is_walk(look, *root, 0, Seq::empty(), w@));
    }
    output
}

/// The root sheet is always listed, and it comes first.
pub proof fn root_comes_first<F: Fn(&String, &String) -> Option<Arrival>>(
    look: F,
    root: Arrival,
    name: Seq<char>,
    w: Walk,
)
    requires
        is_walk(look, root, 0, Seq::empty(), w),
    ensures
        listed(root, name, 0, w).len() > 0,
        listed(root, name, 0, w)[0] == (Listed { name, depth: 0, file: root.path@ }),
{
}

/// No listed sheet lies above the one whose visit lists it, nor deeper than twenty sheets.
pub proof fn depths_are_bounded(at: Arrival, name: Seq<char>, depth: nat, w: Walk, i: int)
    requires
        0 <= i < listed(at, name, depth, w).len(),
    ensures
        depth <= listed(at, name, depth, w)[i].depth <= DEEPEST,
    decreases DEEPEST + 1 - depth, 0nat,
{
    if let Walk::Enter(legs) = w {
        if i > 0 && depth <= DEEPEST {
            let below = listed_below(children_of(at), depth, legs, legs.len());
            assert(listed(at, name, depth, w)[i] == below[i - 1]);
            lemma_depths_below(children_of(at), depth, legs, legs.len(), i - 1);
        }
    }
}

proof fn lemma_depths_below(
    children: Seq<(Seq<char>, Seq<char>)>,
    depth: nat,
    legs: Seq<Leg>,
    n: nat,
    i: int,
)
    requires
        0 <= i < listed_below(children, depth, legs, n).len(),
    ensures
        depth < listed_below(children, depth, legs, n)[i].depth <= DEEPEST,
    decreases DEEPEST - depth, n + 1,
{
    let before = listed_below(children, depth, legs, (n - 1) as nat);
    if i < before.len() {
        lemma_depths_below(children, depth, legs, (n - 1) as nat, i);
    } else if let Some(next) = legs[n - 1].found {
        depths_are_bounded(
            next,
            children[n - 1].0,
            depth + 1,
            legs[n - 1].walk,
            i - before.len(),
        );
    }
}

/// Equal questions get equal answers, up to what the answers hold.
pub open spec fn is_settled<F: Fn(&String, &String) -> Option<Arrival>>(look: F) -> bool {
    forall|d: &String, f: &String, e: &String, g: &String, a: Option<Arrival>, b: Option<Arrival>|
        d@ == e@ && f@ == g@ && #[trigger] call_ensures(look, (d, f), a) && #[trigger] call_ensures(
            look,
            (e, g),
            b,
        ) ==> a == b
}

/// Where the files stay as they are, the hierarchy has one listing.
pub proof fn listing_is_unique<F: Fn(&String, &String) -> Option<Arrival>>(
    look: F,
    at: Arrival,
    name: Seq<char>,
    depth: nat,
    above: Seq<Seq<char>>,
    v: Walk,
    w: Walk,
)
    requires
        is_settled(look),
        is_walk(look, at, depth, above, v),
        is_walk(look, at, depth, above, w),
    ensures
        listed(at, name, depth, v) == listed(at, name, depth, w),
    decreases DEEPEST + 1 - depth, 0nat,
{
    if depth <= DEEPEST && !above.contains(at.key@) {
        let a = v->Enter_0;
        let b = w->Enter_0;
        lemma_unique_below(look, at, depth, above, a, b, a.len());
    }
}

proof fn lemma_unique_below<F: Fn(&String, &String) -> Option<Arrival>>(
    look: F,
    at: Arrival,
    depth: nat,
    above: Seq<Seq<char>>,
    a: Seq<Leg>,
    b: Seq<Leg>,
    n: nat,
)
    requires
        is_settled(look),
        depth <= DEEPEST,
        !above.contains(at.key@),
        is_walk(look, at, depth, above, Walk::Enter(a)),
        is_walk(look, at, depth, above, Walk::Enter(b)),
        n <= a.len(),
    ensures
        listed_below(children_of(at), depth, a, n) == listed_below(children_of(at), depth, b, n),
    decreases DEEPEST - depth, n + 1,
{
    if n > 0 {
        lemma_unique_below(look, at, depth, above, a, b, (n - 1) as nat);
        let p = a[n - 1];
        let q = b[n - 1];
        assert(call_ensures(look, (&p.directory, &p.file), p.found));
        assert(call_ensures(look, (&q.directory, &q.file), q.found));
        assert(p.found == q.found);
        if let Some(next) = p.found {
            listing_is_unique(
                look,
                next,
                children_of(at)[n - 1].0,
                depth + 1,
                above.push(at.key@),
                p.walk,
                q.walk,
            );
        }
    }
}

/// The `i`-th part of the schematic in a file places a sheet of this name and this file; one without
/// a name goes by its file.
pub open spec fn places(at: Arrival, i: int, name: Seq<char>, file: Seq<char>) -> bool {
    &&& at.schematic is Some
    &&& 0 <= i < at.schematic->0@.items().len()
    &&& at.schematic->0@.items()[i].part_text(0) == Some("sheet"@)
    &&& crate::readers::sheet_value(at.schematic->0@.items()[i], "Sheetfile"@) == Some(file)
    &&& name == (match crate::readers::sheet_value(
        at.schematic->0@.items()[i],
        "Sheetname"@,
    ) {
        Some(name) => name,
        None => file,
    })
}

/// A sheet on the way from the root sheet down: what it is called, and its file.
pub ghost struct Station {
    pub name: Seq<char>,
    pub at: Arrival,
}

/// Whenever `look` is asked for the file, `next` is what it finds.
pub open spec fn always_finds<F: Fn(&String, &String) -> Option<Arrival>>(
    look: F,
    directory: Seq<char>,
    file: Seq<char>,
    next: Arrival,
) -> bool {
    forall|d: String, f: String, found: Option<Arrival>|
        d@ == directory && f@ == file && #[trigger] call_ensures(look, (&d, &f), found) ==> found
            == Some(next)
}

/// `look` has found `next` when it was asked for the file.
pub open spec fn has_found<F: Fn(&String, &String) -> Option<Arrival>>(
    look: F,
    directory: Seq<char>,
    file: Seq<char>,
    next: Arrival,
) -> bool {
    exists|d: String, f: String|
        d@ == directory && f@ == file && #[trigger] call_ensures(look, (&d, &f), Some(next))
}

/// The `i`-th part of the one sheet's schematic places the other sheet, from the file that is
/// always found for it.
pub open spec fn leads_to<F: Fn(&String, &String) -> Option<Arrival>>(
    look: F,
    from: Station,
    to: Station,
    i: int,
    file: Seq<char>,
) -> bool {
    places(from.at, i, to.name, file) && always_finds(look, from.at.directory@, file, to.at)
}

/// The `i`-th part of the one sheet's schematic places the other sheet, from the file that was found
/// for it.
pub open spec fn has_led_to<F: Fn(&String, &String) -> Option<Arrival>>(
    look: F,
    from: Station,
    to: Station,
    i: int,
    file: Seq<char>,
) -> bool {
    places(from.at, i, to.name, file) && has_found(look, from.at.directory@, file, to.at)
}

/// The one sheet places the other, from the file that is always found for it.
pub open spec fn is_above<F: Fn(&String, &String) -> Option<Arrival>>(
    look: F,
    from: Station,
    to: Station,
) -> bool {
    exists|i: int, file: Seq<char>| #[trigger] leads_to(look, from, to, i, file)
}

/// The one sheet placed the other, from the file that was found for it.
pub open spec fn was_above<F: Fn(&String, &String) -> Option<Arrival>>(
    look: F,
    from: Station,
    to: Station,
) -> bool {
    exists|i: int, file: Seq<char>| #[trigger] has_led_to(look, from, to, i, file)
}

/// Each sheet on the way places the next, and no file is met twice.
pub open spec fn is_way<F: Fn(&String, &String) -> Option<Arrival>>(
    look: F,
    way: Seq<Station>,
) -> bool {
    &&& way.len() > 0
    &&& forall|d: int|
        0 <= d < way.len() - 1 ==> is_above(look, #[trigger] way[d], way[d + 1])
    &&& forall|d: int, e: int|
        #![trigger way[d], way[e]]
        0 <= d < e < way.len() ==> way[d].at.key@ != way[e].at.key@
}

/// Each sheet on the way placed the next when it was looked at, and no file was met twice.
pub open spec fn was_way<F: Fn(&String, &String) -> Option<Arrival>>(
    look: F,
    way: Seq<Station>,
) -> bool {
    &&& way.len() > 0
    &&& forall|d: int|
        0 <= d < way.len() - 1 ==> was_above(look, #[trigger] way[d], way[d + 1])
    &&& forall|d: int, e: int|
        #![trigger way[d], way[e]]
        0 <= d < e < way.len() ==> way[d].at.key@ != way[e].at.key@
}

/// The keys of the first `n` sheets on the way.
pub open spec fn keys_on(way: Seq<Station>, n: nat) -> Seq<Seq<char>> {
    Seq::new(n, |i: int| way[i].at.key@)
}

proof fn lemma_named(sheets: Seq<crate::sexp::Sexp>, n: nat, k: int)
    requires
        0 <= k < n <= sheets.len(),
        crate::readers::sheet_value(sheets[k], "Sheetfile"@) is Some,
    ensures
        ({
            let file = crate::readers::sheet_value(sheets[k], "Sheetfile"@)->0;
            named_upto(sheets, n).contains(
                (
                    match crate::readers::sheet_value(sheets[k], "Sheetname"@) {
                        Some(name) => name,
                        None => file,
                    },
                    file,
                ),
            )
        }),
    decreases n,
{
    let file = crate::readers::sheet_value(sheets[k], "Sheetfile"@)->0;
    let pair = (
        match crate::readers::sheet_value(sheets[k], "Sheetname"@) {
            Some(name) => name,
            None => file,
        },
        file,
    );
    let before = named_upto(sheets, (n - 1) as nat);
    if k < n - 1 {
        lemma_named(sheets, (n - 1) as nat, k);
        let j = choose|j: int| 0 <= j < before.len() && before[j] == pair;
        assert(named_upto(sheets, n)[j] == pair);
    } else {
        assert(named_upto(sheets, n)[before.len() as int] == pair);
    }
}

proof fn lemma_was_named(sheets: Seq<crate::sexp::Sexp>, n: nat, j: int) -> (k: int)
    requires
        n <= sheets.len(),
        0 <= j < named_upto(sheets, n).len(),
    ensures
        0 <= k < n,
        crate::readers::sheet_value(sheets[k], "Sheetfile"@) == Some(named_upto(sheets, n)[j].1),
        named_upto(sheets, n)[j].0 == (match crate::readers::sheet_value(
            sheets[k],
            "Sheetname"@,
        ) {
            Some(name) => name,
            None => named_upto(sheets, n)[j].1,
        }),
    decreases n,
{
    let before = named_upto(sheets, (n - 1) as nat);
    if j < before.len() {
        lemma_was_named(sheets, (n - 1) as nat, j)
    } else {
        n - 1
    }
}

/// The sheets that a file is followed to are those that its schematic places.
pub proof fn placed_sheets_are_followed(at: Arrival, name: Seq<char>, file: Seq<char>)
    ensures
        children_of(at).contains((name, file)) <==> exists|i: int| #[trigger]
            places(at, i, name, file),
{
    if at.schematic is Some {
        let root = at.schematic->0@;
        let sheets = root.tagged("sheet"@);
        if exists|i: int| #[trigger] places(at, i, name, file) {
            let i = choose|i: int| #[trigger] places(at, i, name, file);
            crate::sexp::tagged_parts_are_found(root, "sheet"@, i);
            let k = choose|k: int| 0 <= k < sheets.len() && sheets[k] == root.items()[i];
            lemma_named(sheets, sheets.len(), k);
        }
        if children_of(at).contains((name, file)) {
            let j = choose|j: int|
                0 <= j < children_of(at).len() && children_of(at)[j] == (name, file);
            let k = lemma_was_named(sheets, sheets.len(), j);
            let i = crate::sexp::tagged_parts_are_parts(root, "sheet"@, k);
            assert(places(at, i, name, file));
        }
    }
}

proof fn lemma_listed_on_leg(
    children: Seq<(Seq<char>, Seq<char>)>,
    depth: nat,
    legs: Seq<Leg>,
    n: nat,
    k: int,
    e: Listed,
)
    requires
        depth <= DEEPEST,
        0 <= k < n <= legs.len(),
        legs[k].found is Some,
        listed(legs[k].found->0, children[k].0, depth + 1, legs[k].walk).contains(e),
    ensures
        listed_below(children, depth, legs, n).contains(e),
    decreases n,
{
    let before = listed_below(children, depth, legs, (n - 1) as nat);
    let now = listed_below(children, depth, legs, n);
    if k < n - 1 {
        lemma_listed_on_leg(children, depth, legs, (n - 1) as nat, k, e);
        let j = choose|j: int| 0 <= j < before.len() && before[j] == e;
        assert(now[j] == e);
    } else {
        let own = listed(legs[k].found->0, children[k].0, depth + 1, legs[k].walk);
        let j = choose|j: int| 0 <= j < own.len() && own[j] == e;
        assert(now[before.len() + j] == e);
    }
}

proof fn lemma_way_is_listed<F: Fn(&String, &String) -> Option<Arrival>>(
    look: F,
    way: Seq<Station>,
    d: nat,
    w: Walk,
)
    requires
        is_way(look, way),
        d < way.len() <= 21,
        is_walk(look, way[d as int].at, d, keys_on(way, d), w),
    ensures
        listed(way[d as int].at, way[d as int].name, d, w).contains(
            Listed {
                name: way.last().name,
                depth: (way.len() - 1) as nat,
                file: way.last().at.path@,
            },
        ),
    decreases way.len() - d,
{
    let here = way[d as int];
    let above = keys_on(way, d);
    assert(!above.contains(here.at.key@)) by {
        if above.contains(here.at.key@) {
            let i = choose|i: int| 0 <= i < above.len() && above[i] == here.at.key@;
            assert(way[i].at.key@ != way[d as int].at.key@);
        }
    }
    let legs = w->Enter_0;
    let children = children_of(here.at);
    let all = listed(here.at, here.name, d, w);
    if d == way.len() - 1 {
        assert(all[0] == (Listed { name: here.name, depth: d, file: here.at.path@ }));
    } else {
        let next = way[d as int + 1];
        let (i, file) = choose|i: int, file: Seq<char>| #[trigger]
            leads_to(look, way[d as int], way[d as int + 1], i, file);
        placed_sheets_are_followed(here.at, next.name, file);
        assert(places(here.at, i, next.name, file));
        let k = choose|k: int| 0 <= k < children.len() && children[k] == (next.name, file);
        let leg = legs[k];
        assert(call_ensures(look, (&leg.directory, &leg.file), leg.found));
        assert(leg.found == Some(next.at));
        assert(above.push(here.at.key@) =~= keys_on(way, d + 1));
        lemma_way_is_listed(look, way, d + 1, leg.walk);
        let e = Listed {
            name: way.last().name,
            depth: (way.len() - 1) as nat,
            file: way.last().at.path@,
        };
        lemma_listed_on_leg(children, d, legs, legs.len(), k, e);
        let below = listed_below(children, d, legs, legs.len());
        let j = choose|j: int| 0 <= j < below.len() && below[j] == e;
        assert(all[j + 1] == e);
    }
}

/// Every sheet that placed sheets lead to from the root sheet, through files that are found and are
/// not met twice on the way, is listed under the name that it is placed by, as deep as the way is
/// long, down to twenty sheets below the root.
pub proof fn every_sheet_on_a_way_is_listed<F: Fn(&String, &String) -> Option<Arrival>>(
    look: F,
    root: Arrival,
    name: Seq<char>,
    w: Walk,
    way: Seq<Station>,
)
    requires
        is_walk(look, root, 0, Seq::empty(), w),
        is_way(look, way),
        way[0] == (Station { name, at: root }),
        way.len() <= 21,
    ensures
        listed(root, name, 0, w).contains(
            Listed {
                name: way.last().name,
                depth: (way.len() - 1) as nat,
                file: way.last().at.path@,
            },
        ),
{
    assert(keys_on(way, 0) =~= Seq::empty());
    lemma_way_is_listed(look, way, 0, w);
}

proof fn lemma_on_a_leg(
    children: Seq<(Seq<char>, Seq<char>)>,
    depth: nat,
    legs: Seq<Leg>,
    n: nat,
    e: Listed,
) -> (k: int)
    requires
        n <= legs.len(),
        listed_below(children, depth, legs, n).contains(e),
    ensures
        0 <= k < n,
        legs[k].found is Some,
        listed(legs[k].found->0, children[k].0, depth + 1, legs[k].walk).contains(e),
    decreases n,
{
    let now = listed_below(children, depth, legs, n);
    let j = choose|j: int| 0 <= j < now.len() && now[j] == e;
    let before = listed_below(children, depth, legs, (n - 1) as nat);
    if j < before.len() {
        assert(before[j] == e);
        lemma_on_a_leg(children, depth, legs, (n - 1) as nat, e)
    } else {
        let own = listed(legs[n - 1].found->0, children[n - 1].0, depth + 1, legs[n - 1].walk);
        assert(own[j - before.len()] == e);
        n - 1
    }
}

proof fn lemma_was_on_a_way<F: Fn(&String, &String) -> Option<Arrival>>(
    look: F,
    way: Seq<Station>,
    w: Walk,
    e: Listed,
) -> (r: Seq<Station>)
    requires
        was_way(look, way),
        is_walk(
            look,
            way.last().at,
            (way.len() - 1) as nat,
            keys_on(way, (way.len() - 1) as nat),
            w,
        ),
        listed(way.last().at, way.last().name, (way.len() - 1) as nat, w).contains(e),
    ensures
        was_way(look, r),
        r[0] == way[0],
        r.len() <= 21,
        e == (Listed {
            name: r.last().name,
            depth: (r.len() - 1) as nat,
            file: r.last().at.path@,
        }),
    decreases DEEPEST + 2 - way.len(),
{
    let here = way.last();
    let d = (way.len() - 1) as nat;
    let above = keys_on(way, d);
    let legs = w->Enter_0;
    let all = listed(here.at, here.name, d, w);
    let j = choose|j: int| 0 <= j < all.len() && all[j] == e;
    if j == 0 {
        way
    } else {
        let children = children_of(here.at);
        let below = listed_below(children, d, legs, legs.len());
        assert(below[j - 1] == e);
        let k = lemma_on_a_leg(children, d, legs, legs.len(), e);
        let leg = legs[k];
        let next = Station { name: children[k].0, at: leg.found->0 };
        let more = way.push(next);
        let keys = above.push(here.at.key@);
        assert(call_ensures(look, (&leg.directory, &leg.file), leg.found));
        assert(has_found(look, here.at.directory@, children[k].1, next.at));
        assert(keys =~= keys_on(more, (more.len() - 1) as nat));
        assert(children.contains((next.name, children[k].1)));
        placed_sheets_are_followed(here.at, next.name, children[k].1);
        let i = choose|i: int| #[trigger] places(here.at, i, next.name, children[k].1);
        assert(has_led_to(look, here, next, i, children[k].1));
        let own = listed(next.at, next.name, d + 1, leg.walk);
        let o = choose|o: int| 0 <= o < own.len() && own[o] == e;
        assert(leg.walk is Enter);
        assert(is_walk(look, next.at, d + 1, keys, leg.walk));
        assert(!keys.contains(next.at.key@));
        assert(was_way(look, more)) by {
            assert forall|a: int| 0 <= a < more.len() - 1 implies was_above(
                look,
                #[trigger] more[a],
                more[a + 1],
            ) by {
                if a < way.len() - 1 {
                    assert(more[a] == way[a] && more[a + 1] == way[a + 1]);
                }
            }
            assert forall|a: int, b: int|
                #![trigger more[a], more[b]]
                0 <= a < b < more.len() implies more[a].at.key@ != more[b].at.key@ by {
                if b < way.len() {
                    assert(more[a] == way[a] && more[b] == way[b]);
                } else {
                    assert(keys[a] == more[a].at.key@);
                }
            }
        }
        lemma_was_on_a_way(look, more, leg.walk, e)
    }
}

/// Nothing is listed but sheets that placed sheets lead to from the root sheet, each as deep as its
/// way is long, at most twenty sheets below the root.
pub proof fn every_listed_sheet_is_on_a_way<F: Fn(&String, &String) -> Option<Arrival>>(
    look: F,
    root: Arrival,
    name: Seq<char>,
    w: Walk,
    e: Listed,
)
    requires
        is_walk(look, root, 0, Seq::empty(), w),
        listed(root, name, 0, w).contains(e),
    ensures
        exists|way: Seq<Station>| #[trigger]
            was_way(look, way) && way[0] == (Station { name, at: root }) && way.len() <= 21 && e
                == (Listed {
                name: way.last().name,
                depth: (way.len() - 1) as nat,
                file: way.last().at.path@,
            }),
{
    let start = seq![Station { name, at: root }];
    assert(keys_on(start, 0) =~= Seq::empty());
    let way = lemma_was_on_a_way(look, start, w, e);
    assert(way[0] == start[0]);
}

/// Each sheet is listed before the sheets on it, and right after the sheet that it is on or what is
/// below one of its neighbours: from one entry to the next the depth grows by no more than one.
pub proof fn sheets_follow_those_they_are_on(
    at: Arrival,
    name: Seq<char>,
    depth: nat,
    w: Walk,
    i: int,
)
    requires
        0 <= i < listed(at, name, depth, w).len(),
    ensures
        i == 0 ==> listed(at, name, depth, w)[i].depth == depth,
        i > 0 ==> depth < listed(at, name, depth, w)[i].depth <= listed(
            at,
            name,
            depth,
            w,
        )[i - 1].depth + 1,
    decreases DEEPEST + 1 - depth, 0nat,
{
    if i > 0 {
        let legs = w->Enter_0;
        let below = listed_below(children_of(at), depth, legs, legs.len());
        assert(listed(at, name, depth, w)[i] == below[i - 1]);
        lemma_follow_below(children_of(at), depth, legs, legs.len(), i - 1);
        if i > 1 {
            assert(listed(at, name, depth, w)[i - 1] == below[i - 2]);
        }
    }
}

proof fn lemma_follow_below(
    children: Seq<(Seq<char>, Seq<char>)>,
    depth: nat,
    legs: Seq<Leg>,
    n: nat,
    i: int,
)
    requires
        0 <= i < listed_below(children, depth, legs, n).len(),
    ensures
        i == 0 ==> listed_below(children, depth, legs, n)[i].depth == depth + 1,
        depth < listed_below(children, depth, legs, n)[i].depth,
        i > 0 ==> listed_below(children, depth, legs, n)[i].depth <= listed_below(
            children,
            depth,
            legs,
            n,
        )[i - 1].depth + 1,
    decreases DEEPEST - depth, n + 1,
{
    let before = listed_below(children, depth, legs, (n - 1) as nat);
    let now = listed_below(children, depth, legs, n);
    lemma_depths_below(children, depth, legs, n, i);
    if i < before.len() {
        lemma_follow_below(children, depth, legs, (n - 1) as nat, i);
        assert(now[i] == before[i]);
        if i > 0 {
            assert(now[i - 1] == before[i - 1]);
        }
    } else if let Some(next) = legs[n - 1].found {
        let own = listed(next, children[n - 1].0, depth + 1, legs[n - 1].walk);
        let k = i - before.len();
        sheets_follow_those_they_are_on(next, children[n - 1].0, depth + 1, legs[n - 1].walk, k);
        assert(now[i] == own[k]);
        if k > 0 {
            assert(now[i - 1] == own[k - 1]);
        } else if i > 0 {
            assert(now[i - 1] == before[i - 1]);
            lemma_depths_below(children, depth, legs, (n - 1) as nat, i - 1);
        }
    }
}

} // verus!
