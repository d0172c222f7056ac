//! Finding items by what is written on them.

use crate::input::{type_key, KeyPress, Modifiers, Typing};
use crate::scene_builder::SceneObject;
use crate::selection::kind_name;
use crate::text::{clone_opt, contains, to_decimal, trim};
use vstd::prelude::*;

verus! {

/// The small letters of a text, by the rules of Unicode.
pub uninterp spec fn lowercase(s: Seq<char>) -> Seq<char>;

/// `str::to_lowercase`: the text in small letters. What it gives depends on the text alone.
#[verifier::external_body]
fn to_lowercase(s: &str) -> (r: String)
    ensures
        r@ == lowercase(s@),
{
    s.to_lowercase()
}

/// Something that was found: a sheet, or an item on it.
pub struct SearchHit {
    pub sheet: usize,
    pub uuid: Option<String>,
    pub description: String,
}

/// Something that was found, as values.
#[verifier::ext_equal]
pub ghost struct Hit {
    pub sheet: nat,
    pub uuid: Option<Seq<char>>,
    pub description: Seq<char>,
}

impl SearchHit {
    pub open spec fn model(self) -> Hit {
        Hit {
            sheet: self.sheet as nat,
            uuid: crate::text::opt_view(self.uuid),
            description: self.description@,
        }
    }
}

pub open spec fn hits(v: Seq<SearchHit>) -> Seq<Hit> {
    v.map_values(|h: SearchHit| h.model())
}

/// Something that can be found, with its text in small letters.
pub struct Candidate {
    pub text: String,
    pub hit: SearchHit,
}

/// Something that can be found, as values.
#[verifier::ext_equal]
pub ghost struct Findable {
    pub text: Seq<char>,
    pub hit: Hit,
}

impl Candidate {
    pub open spec fn model(self) -> Findable {
        Findable { text: self.text@, hit: self.hit.model() }
    }
}

pub open spec fn findables(v: Seq<Candidate>) -> Seq<Findable> {
    v.map_values(|c: Candidate| c.model())
}

/// Those of the first `n` whose text holds the query, in order.
pub open spec fn matching(all: Seq<Findable>, query: Seq<char>, n: nat) -> Seq<Hit>
    decreases n,
{
    if n == 0 {
        Seq::empty()
    } else if crate::text::occurs(all[n - 1].text, query) {
        matching(all, query, (n - 1) as nat).push(all[n - 1].hit)
    } else {
        matching(all, query, (n - 1) as nat)
    }
}

fn clone_hit(hit: &SearchHit) -> (r: SearchHit)
    ensures
        r.model() == hit.model(),
{
    SearchHit {
        sheet: hit.sheet,
        uuid: clone_opt(&hit.uuid),
        description: hit.description.clone(),
    }
}

/// What can be found and holds the query, which is in small letters.
pub fn find_matching(all: &Vec<Candidate>, query: &str) -> (r: Vec<SearchHit>)
    ensures
        hits(r@) == matching(findables(all@), query@, all@.len()),
{
    let ghost seen = findables(all@);
    let mut r: Vec<SearchHit> = Vec::new();
    let mut i: usize = 0;
    assert(hits(r@) =~= matching(seen, query@, 0));
    while i < all.len()
        invariant
            i <= all@.len(),
            seen == findables(all@),
            hits(r@) == matching(seen, query@, i as nat),
        decreases all@.len() - i,
    {
        assert(seen[i as int] == all@[i as int].model());
        if contains(all[i].text.as_str(), query) {
            let ghost before = hits(r@);
            let hit = clone_hit(&all[i].hit);
            r.push(hit);
            assert(hits(r@) =~= before.push(hit.model()));
        }
        i = i + 1;
    }
    r
}

/// A sheet that is searched.
pub struct SearchedSheet<'a> {
    pub name: &'a str,
    pub file: &'a str,
    pub objects: &'a Vec<SceneObject>,
}

/// A sheet can be found by its name and its file.
pub open spec fn sheet_findable(name: Seq<char>, file: Seq<char>, at: nat) -> Findable {
    Findable {
        text: lowercase(name + " "@ + file),
        hit: Hit { sheet: at, uuid: None, description: "Sheet · "@ + name },
    }
}

/// An item can be found by what is written on it.
pub open spec fn object_findable(object: SceneObject, at: nat) -> Findable {
    Findable {
        text: lowercase(object.search_text@),
        hit: Hit {
            sheet: at,
            uuid: Some(object.uuid@),
            description: crate::selection::kind_text(object.kind) + " · "@ + object.label@,
        },
    }
}

/// What can be found on the first `n` sheets: each sheet, and the items on it.
pub open spec fn findable_upto(sheets: Seq<SearchedSheet>, n: nat) -> Seq<Findable>
    decreases n,
{
    if n == 0 {
        Seq::empty()
    } else {
        let sheet = sheets[n - 1];
        findable_upto(sheets, (n - 1) as nat).push(
            sheet_findable(sheet.name@, sheet.file@, (n - 1) as nat),
        ) + sheet.objects@.map_values(|o: SceneObject| object_findable(o, (n - 1) as nat))
    }
}

fn list_objects(all: &mut Vec<Candidate>, objects: &Vec<SceneObject>, at: usize)
    ensures
        findables(final(all)@) == findables(old(all)@) + objects@.map_values(
            |o: SceneObject| object_findable(o, at as nat),
        ),
{
    let ghost start = findables(all@);
    let ghost more = objects@.map_values(|o: SceneObject| object_findable(o, at as nat));
    let mut i: usize = 0;
    assert(findables(all@) =~= start + more.take(0));
    while i < objects.len()
        invariant
            i <= objects@.len(),
            more == objects@.map_values(|o: SceneObject| object_findable(o, at as nat)),
            findables(all@) == start + more.take(i as int),
        decreases objects@.len() - i,
    {
        let object = &objects[i];
        let mut description = kind_name(object.kind).to_owned();
        description.append(" · ");
        description.append(object.label.as_str());
        let ghost before = findables(all@);
        let candidate = Candidate {
            text: to_lowercase(object.search_text.as_str()),
            hit: SearchHit { sheet: at, uuid: Some(object.uuid.clone()), description },
        };
        all.push(candidate);
        proof {
            assert(more[i as int] == object_findable(*object, at as nat));
            assert(candidate.model() =~= more[i as int]);
            assert(findables(all@) =~= before.push(candidate.model()));
            assert(start + more.take(i + 1) =~= (start + more.take(i as int)).push(
                more[i as int],
            ));
        }
        i = i + 1;
    }
    proof {
        assert(more.take(more.len() as int) =~= more);
    }
}

/// What can be found on the sheets.
pub fn list_candidates(sheets: &Vec<SearchedSheet>) -> (r: Vec<Candidate>)
    ensures
        findables(r@) == findable_upto(sheets@, sheets@.len()),
{
    let mut r: Vec<Candidate> = Vec::new();
    let mut i: usize = 0;
    assert(findables(r@) =~= findable_upto(sheets@, 0));
    while i < sheets.len()
        invariant
            i <= sheets@.len(),
            findables(r@) == findable_upto(sheets@, i as nat),
        decreases sheets@.len() - i,
    {
        let mut text = sheets[i].name.to_owned();
        text.append(" ");
        text.append(sheets[i].file);
        let mut description = "Sheet · ".to_owned();
        description.append(sheets[i].name);
        let ghost before = findables(r@);
        let candidate = Candidate {
            text: to_lowercase(text.as_str()),
            hit: SearchHit { sheet: i, uuid: None, description },
        };
        r.push(candidate);
        proof {
            assert(candidate.model() =~= sheet_findable(
                sheets@[i as int].name@,
                sheets@[i as int].file@,
                i as nat,
            ));
            assert(findables(r@) =~= before.push(candidate.model()));
        }
        list_objects(&mut r, sheets[i].objects, i);
        i = i + 1;
    }
    r
}

/// A search that is going on.
pub struct SearchState {
    pub query: String,
    pub hits: Vec<SearchHit>,
    /// The hit that is gone to next.
    pub current: usize,
}

/// What is found for a query: nothing for one without letters, else what holds it, whatever the
/// case of the letters.
pub open spec fn found(query: Seq<char>, sheets: Seq<SearchedSheet>) -> Seq<Hit> {
    let wanted = lowercase(crate::text::trimmed(query));
    if wanted.len() == 0 {
        Seq::empty()
    } else {
        let all = findable_upto(sheets, sheets.len());
        matching(all, wanted, all.len())
    }
}

impl SearchState {
    /// A search for nothing yet.
    pub fn new() -> (r: SearchState)
        ensures
            r.query@.len() == 0,
            r.hits@.len() == 0,
            r.current == 0,
    {
        SearchState { query: String::new(), hits: Vec::new(), current: 0 }
    }

    /// What a key does. What is found is found anew where the query may have changed.
    pub fn handle_key(&mut self, key: &KeyPress, modifiers: Modifiers) -> (r: Typing)
        ensures
            r == crate::dialogs::in_one_field(
                crate::input::typing(key.model(), modifiers.spec_editing()),
            ),
            final(self).query@ == crate::input::text_after(
                old(self).query@,
                key.model(),
                modifiers.spec_editing(),
            ),
            final(self).hits == old(self).hits,
            final(self).current == old(self).current,
    {
        match type_key(&mut self.query, key, modifiers) {
            Typing::Turn => Typing::Ignored,
            typing => typing,
        }
    }

    /// Finds anew, and answers what is said; nothing for a query without letters.
    pub fn refresh(&mut self, sheets: &Vec<SearchedSheet>) -> (r: Option<String>)
        ensures
            final(self).query == old(self).query,
            final(self).current == 0,
            hits(final(self).hits@) == found(old(self).query@, sheets@),
            match r {
                None => lowercase(crate::text::trimmed(old(self).query@)).len() == 0,
                Some(status) => lowercase(crate::text::trimmed(old(self).query@)).len() > 0
                    && status@ == "Search · "@ + crate::text::decimal(final(self).hits@.len())
                    + " result(s)"@,
            },
    {
        self.current = 0;
        self.hits.clear();
        assert(hits(self.hits@) =~= Seq::empty());
        let wanted = to_lowercase(trim(self.query.as_str()).as_str());
        if wanted.as_str().is_empty() {
            return None;
        }
        let all = list_candidates(sheets);
        proof {
            assert(findables(all@).len() == all@.len());
        }
        self.hits = find_matching(&all, wanted.as_str());
        let mut status = "Search · ".to_owned();
        status.append(to_decimal(self.hits.len() as u128).as_str());
        status.append(" result(s)");
        Some(status)
    }

    /// The hit that is gone to next.
    pub open spec fn next_hit(self) -> int {
        if self.current < self.hits@.len() {
            self.current as int
        } else {
            self.hits@.len() - 1
        }
    }

    /// Goes to the next hit, the first after the last, and answers which it is and what is said.
    pub fn activate_search_hit(&mut self) -> (r: (Option<usize>, String))
        ensures
            final(self).query == old(self).query,
            final(self).hits == old(self).hits,
            if old(self).hits@.len() == 0 {
                &&& r.0 is None
                &&& r.1@ == "Search · no results for ‘"@ + old(self).query@ + "’"@
                &&& final(self).current == old(self).current
            } else {
                let at = old(self).next_hit();
                let count = old(self).hits@.len();
                &&& r.0 == Some(at as usize)
                &&& final(self).current == (at + 1) % (count as int)
                &&& r.1@ == "Search result "@ + crate::text::decimal((at + 1) as nat) + "/"@
                    + crate::text::decimal(count) + " · "@ + old(self).hits@[at].description@
            },
    {
        let count: usize = self.hits.len();
        if count == 0 {
            let mut status = "Search · no results for ‘".to_owned();
            status.append(self.query.as_str());
            status.append("’");
            return (None, status);
        }
        let at: usize = if self.current < count {
            self.current
        } else {
            count - 1
        };
        self.current = (at + 1) % count;
        let mut status = "Search result ".to_owned();
        status.append(to_decimal(at as u128 + 1).as_str());
        status.append("/");
        status.append(to_decimal(count as u128).as_str());
        status.append(" · ");
        status.append(self.hits[at].description.as_str());
        (Some(at), status)
    }
}

/// The hit that is gone to the `n`-th time from now on.
pub open spec fn gone_to(count: int, current: int, n: nat) -> int
    decreases n,
{
    if n == 0 {
        current
    } else {
        (gone_to(count, current, (n - 1) as nat) + 1) % count
    }
}

/// Going on from hit to hit, every hit is met in turn: after as many steps as there are hits the
/// same one is met again.
pub proof fn hits_are_met_in_turn(count: int, current: int, n: nat)
    requires
        0 <= current < count,
    ensures
        gone_to(count, current, n) == (current + n) % count,
    decreases n,
{
    if n == 0 {
        vstd::arithmetic::div_mod::lemma_small_mod(current as nat, count as nat);
    } else {
        hits_are_met_in_turn(count, current, (n - 1) as nat);
        vstd::arithmetic::div_mod::lemma_add_mod_noop(current + n - 1, 1, count);
        if count == 1 {
            assert((current + n - 1) % 1 == 0 && (current + n) % 1 == 0);
        } else {
            vstd::arithmetic::div_mod::lemma_small_mod(1, count as nat);
        }
    }
}

/// Nothing is found that does not hold the query.
pub proof fn hits_hold_the_query(all: Seq<Findable>, query: Seq<char>, n: nat, i: int)
    requires
        n <= all.len(),
        0 <= i < matching(all, query, n).len(),
    ensures
        exists|k: int|
            0 <= k < n && (#[trigger] all[k]).hit == matching(all, query, n)[i]
                && crate::text::occurs(all[k].text, query),
    decreases n,
{
    let before = matching(all, query, (n - 1) as nat);
    if i < before.len() {
        hits_hold_the_query(all, query, (n - 1) as nat, i);
        let k = choose|k: int|
            0 <= k < n - 1 && (#[trigger] all[k]).hit == before[i] && crate::text::occurs(
                all[k].text,
                query,
            );
        assert(all[k].hit == matching(all, query, n)[i]);
    } else {
        assert(all[n - 1].hit == matching(all, query, n)[i]);
    }
}

proof fn lemma_all_matching(all: Seq<Findable>, query: Seq<char>, n: nat)
    requires
        n <= all.len(),
    ensures
        forall|h: Hit| #[trigger]
            matching(all, query, n).contains(h) <==> exists|k: int|
                0 <= k < n && (#[trigger] all[k]).hit == h && crate::text::occurs(
                    all[k].text,
                    query,
                ),
    decreases n,
{
    if n > 0 {
        lemma_all_matching(all, query, (n - 1) as nat);
        let before = matching(all, query, (n - 1) as nat);
        let now = matching(all, query, n);
        assert forall|h: Hit| #[trigger] now.contains(h) <==> exists|k: int|
            0 <= k < n && (#[trigger] all[k]).hit == h && crate::text::occurs(
                all[k].text,
                query,
            ) by {
            if now.contains(h) {
                let j = choose|j: int| 0 <= j < now.len() && now[j] == h;
                if j < before.len() {
                    assert(before[j] == h);
                    assert(before.contains(h));
                } else {
                    assert(all[n - 1].hit == h);
                }
            }
            if exists|k: int|
                0 <= k < n && (#[trigger] all[k]).hit == h && crate::text::occurs(
                    all[k].text,
                    query,
                ) {
                let k = choose|k: int|
                    0 <= k < n && (#[trigger] all[k]).hit == h && crate::text::occurs(
                        all[k].text,
                        query,
                    );
                if k < n - 1 {
                    assert(before.contains(h));
                    let j = choose|j: int| 0 <= j < before.len() && before[j] == h;
                    assert(now[j] == h);
                } else {
                    assert(now[before.len() as int] == h);
                }
            }
        }
    }
}

/// A sheet is a hit: the text of its name and its file holds what is wanted.
pub open spec fn is_sheet_hit(sheets: Seq<SearchedSheet>, s: int, wanted: Seq<char>, h: Hit) -> bool {
    &&& 0 <= s < sheets.len()
    &&& h.sheet == s
    &&& h.uuid is None
    &&& h.description == "Sheet · "@ + sheets[s].name@
    &&& exists|i: int|
        0 <= i && i + wanted.len() <= lowercase(sheets[s].name@ + " "@ + sheets[s].file@).len()
            && #[trigger] lowercase(sheets[s].name@ + " "@ + sheets[s].file@).subrange(
            i,
            i + wanted.len(),
        ) == wanted
}

/// An item of a sheet is a hit: what is written on it holds what is wanted.
pub open spec fn is_item_hit(
    sheets: Seq<SearchedSheet>,
    s: int,
    k: int,
    wanted: Seq<char>,
    h: Hit,
) -> bool {
    let item = sheets[s].objects@[k];
    &&& 0 <= s < sheets.len()
    &&& 0 <= k < sheets[s].objects@.len()
    &&& h.sheet == s
    &&& h.uuid == Some(item.uuid@)
    &&& h.description == crate::selection::kind_text(item.kind) + " · "@ + item.label@
    &&& exists|i: int|
        0 <= i && i + wanted.len() <= lowercase(item.search_text@).len() && #[trigger] lowercase(
            item.search_text@,
        ).subrange(i, i + wanted.len()) == wanted
}

proof fn lemma_findable(sheets: Seq<SearchedSheet>, n: nat)
    requires
        n <= sheets.len(),
    ensures
        forall|f: Findable| #[trigger]
            findable_upto(sheets, n).contains(f) <==> (exists|s: int|
                0 <= s < n && f == #[trigger] sheet_findable(
                    sheets[s].name@,
                    sheets[s].file@,
                    s as nat,
                )) || (exists|s: int, k: int|
                0 <= s < n && 0 <= k < sheets[s].objects@.len() && f == #[trigger] object_findable(
                    sheets[s].objects@[k],
                    s as nat,
                )),
    decreases n,
{
    if n > 0 {
        lemma_findable(sheets, (n - 1) as nat);
        let sheet = sheets[n - 1];
        let before = findable_upto(sheets, (n - 1) as nat);
        let own = sheet_findable(sheet.name@, sheet.file@, (n - 1) as nat);
        let items = sheet.objects@.map_values(|o: SceneObject| object_findable(o, (n - 1) as nat));
        let now = findable_upto(sheets, n);
        assert forall|f: Findable| #[trigger] now.contains(f) <==> (exists|s: int|
            0 <= s < n && f == #[trigger] sheet_findable(
                sheets[s].name@,
                sheets[s].file@,
                s as nat,
            )) || (exists|s: int, k: int|
            0 <= s < n && 0 <= k < sheets[s].objects@.len() && f == #[trigger] object_findable(
                sheets[s].objects@[k],
                s as nat,
            )) by {
            if now.contains(f) {
                let j = choose|j: int| 0 <= j < now.len() && now[j] == f;
                if j < before.len() {
                    assert(before[j] == f);
                    assert(before.contains(f));
                } else if j == before.len() {
                    assert(f == own);
                } else {
                    let k = j - before.len() - 1;
                    assert(items[k] == f);
                    assert(f == object_findable(sheets[n - 1].objects@[k], (n - 1) as nat));
                }
            }
            if exists|s: int|
                0 <= s < n && f == #[trigger] sheet_findable(
                    sheets[s].name@,
                    sheets[s].file@,
                    s as nat,
                ) {
                let s = choose|s: int|
                    0 <= s < n && f == #[trigger] sheet_findable(
                        sheets[s].name@,
                        sheets[s].file@,
                        s as nat,
                    );
                if s < n - 1 {
                    assert(before.contains(f));
                    let j = choose|j: int| 0 <= j < before.len() && before[j] == f;
                    assert(now[j] == f);
                } else {
                    assert(now[before.len() as int] == f);
                }
            }
            if exists|s: int, k: int|
                0 <= s < n && 0 <= k < sheets[s].objects@.len() && f == #[trigger] object_findable(
                    sheets[s].objects@[k],
                    s as nat,
                ) {
                let (s, k) = choose|s: int, k: int|
                    0 <= s < n && 0 <= k < sheets[s].objects@.len() && f
                        == #[trigger] object_findable(sheets[s].objects@[k], s as nat);
                if s < n - 1 {
                    assert(before.contains(f));
                    let j = choose|j: int| 0 <= j < before.len() && before[j] == f;
                    assert(now[j] == f);
                } else {
                    assert(items[k] == f);
                    assert(now[before.len() + 1 + k] == f);
                }
            }
        }
    }
}

/// What is found are the sheets whose name or file holds the query and the items whose own text
/// does, whatever the case of the letters and the space around the query: all of them, and nothing
/// else. A query without letters finds nothing.
pub proof fn all_that_holds_the_query_is_found(
    query: Seq<char>,
    sheets: Seq<SearchedSheet>,
    h: Hit,
)
    ensures
        found(query, sheets).contains(h) <==> {
            let wanted = lowercase(crate::text::trimmed(query));
            &&& wanted.len() > 0
            &&& (exists|s: int| #[trigger] is_sheet_hit(sheets, s, wanted, h)) || (exists|
                s: int,
                k: int,
            | #[trigger] is_item_hit(sheets, s, k, wanted, h))
        },
{
    let wanted = lowercase(crate::text::trimmed(query));
    let all = findable_upto(sheets, sheets.len());
    lemma_findable(sheets, sheets.len());
    lemma_all_matching(all, wanted, all.len());
    if wanted.len() > 0 {
        if found(query, sheets).contains(h) {
            let k = choose|k: int|
                0 <= k < all.len() && (#[trigger] all[k]).hit == h && crate::text::occurs(
                    all[k].text,
                    wanted,
                );
            let f = all[k];
            assert(all.contains(f));
            if exists|s: int|
                0 <= s < sheets.len() && f == #[trigger] sheet_findable(
                    sheets[s].name@,
                    sheets[s].file@,
                    s as nat,
                ) {
                let s = choose|s: int|
                    0 <= s < sheets.len() && f == #[trigger] sheet_findable(
                        sheets[s].name@,
                        sheets[s].file@,
                        s as nat,
                    );
                assert(is_sheet_hit(sheets, s, wanted, h));
            } else {
                let (s, k) = choose|s: int, k: int|
                    0 <= s < sheets.len() && 0 <= k < sheets[s].objects@.len() && f
                        == #[trigger] object_findable(sheets[s].objects@[k], s as nat);
                assert(is_item_hit(sheets, s, k, wanted, h));
            }
        }
        if exists|s: int| #[trigger] is_sheet_hit(sheets, s, wanted, h) {
            let s = choose|s: int| #[trigger] is_sheet_hit(sheets, s, wanted, h);
            let f = sheet_findable(sheets[s].name@, sheets[s].file@, s as nat);
            assert(all.contains(f));
            let j = choose|j: int| 0 <= j < all.len() && all[j] == f;
            assert(all[j].hit == h);
        }
        if exists|s: int, k: int| #[trigger] is_item_hit(sheets, s, k, wanted, h) {
            let (s, k) = choose|s: int, k: int| #[trigger] is_item_hit(sheets, s, k, wanted, h);
            let f = object_findable(sheets[s].objects@[k], s as nat);
            assert(all.contains(f));
            let j = choose|j: int| 0 <= j < all.len() && all[j] == f;
            assert(all[j].hit == h);
        }
    }
}

proof fn lemma_sheets_ascend(sheets: Seq<SearchedSheet>, n: nat)
    requires
        n <= sheets.len(),
    ensures
        forall|i: int, j: int|
            #![trigger findable_upto(sheets, n)[i], findable_upto(sheets, n)[j]]
            0 <= i <= j < findable_upto(sheets, n).len() ==> findable_upto(sheets, n)[i].hit.sheet
                <= findable_upto(sheets, n)[j].hit.sheet < n,
    decreases n,
{
    if n > 0 {
        lemma_sheets_ascend(sheets, (n - 1) as nat);
        let before = findable_upto(sheets, (n - 1) as nat);
        let now = findable_upto(sheets, n);
        assert forall|i: int, j: int|
            #![trigger now[i], now[j]]
            0 <= i <= j < now.len() implies now[i].hit.sheet <= now[j].hit.sheet < n by {
            if i < before.len() {
                assert(now[i] == before[i]);
            }
            if j < before.len() {
                assert(now[j] == before[j]);
            }
        }
    }
}

proof fn lemma_matching_ascends(all: Seq<Findable>, query: Seq<char>, n: nat)
    requires
        n <= all.len(),
        forall|i: int, j: int|
            #![trigger all[i], all[j]]
            0 <= i <= j < all.len() ==> all[i].hit.sheet <= all[j].hit.sheet,
    ensures
        forall|i: int|
            0 <= i < matching(all, query, n).len() ==> exists|k: int|
                0 <= k < n && (#[trigger] all[k]).hit == #[trigger] matching(all, query, n)[i],
        forall|i: int, j: int|
            #![trigger matching(all, query, n)[i], matching(all, query, n)[j]]
            0 <= i <= j < matching(all, query, n).len() ==> matching(all, query, n)[i].sheet
                <= matching(all, query, n)[j].sheet,
    decreases n,
{
    if n > 0 {
        lemma_matching_ascends(all, query, (n - 1) as nat);
        let before = matching(all, query, (n - 1) as nat);
        let now = matching(all, query, n);
        assert forall|i: int| 0 <= i < now.len() implies exists|k: int|
            0 <= k < n && (#[trigger] all[k]).hit == #[trigger] now[i] by {
            if i < before.len() {
                assert(now[i] == before[i]);
            } else {
                assert(all[n - 1].hit == now[i]);
            }
        }
        assert forall|i: int, j: int|
            #![trigger now[i], now[j]]
            0 <= i <= j < now.len() implies now[i].sheet <= now[j].sheet by {
            if j < before.len() {
                assert(now[i] == before[i] && now[j] == before[j]);
            } else if i < before.len() {
                assert(now[i] == before[i]);
                let k = choose|k: int| 0 <= k < n - 1 && (#[trigger] all[k]).hit == before[i];
                assert(all[k].hit.sheet <= all[n - 1].hit.sheet);
            }
        }
    }
}

/// What is found comes in the order of the sheets.
pub proof fn hits_come_sheet_by_sheet(
    query: Seq<char>,
    sheets: Seq<SearchedSheet>,
    i: int,
    j: int,
)
    requires
        0 <= i <= j < found(query, sheets).len(),
    ensures
        found(query, sheets)[i].sheet <= found(query, sheets)[j].sheet < sheets.len(),
{
    let wanted = lowercase(crate::text::trimmed(query));
    let all = findable_upto(sheets, sheets.len());
    lemma_sheets_ascend(sheets, sheets.len());
    lemma_matching_ascends(all, wanted, all.len());
    let k = choose|k: int|
        0 <= k < all.len() && (#[trigger] all[k]).hit == found(query, sheets)[j];
    assert(all[k].hit.sheet < sheets.len());
}

} // verus!
