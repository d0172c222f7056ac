//! What a schematic shows: its objects, what is known of them, and in which order their
//! symbols are painted.

use crate::sexp::is_text;
use crate::sexp::Node;
use crate::text::same;
use vstd::prelude::*;

verus! {

/// What a part of the picture is, for the choice of its colour.
#[derive(Clone, Copy, PartialEq, Eq, Structural, Debug)]
pub enum ColorRole {
    Border,
    Bus,
    GraphicText,
    Junction,
    Label,
    NoConnect,
    Page,
    Pin,
    PinName,
    PinNumber,
    SheetFile,
    Symbol,
    Text,
    Wire,
}

/// What an object of the schematic is.
#[derive(Clone, Copy, PartialEq, Eq, Structural, Debug)]
pub enum ObjectKind {
    Bus,
    BusEntry,
    Junction,
    Label,
    NoConnect,
    Sheet,
    Symbol,
    Text,
    Wire,
}

/// The name by which objects drawn in a role are listed.
pub open spec fn name_of_role(role: ColorRole) -> Seq<char> {
    match role {
        ColorRole::Bus => "bus"@,
        ColorRole::GraphicText => "graphic text"@,
        ColorRole::Wire => "wire"@,
        _ => "object"@,
    }
}

/// The name by which objects drawn in a role are listed.
pub fn role_name(role: ColorRole) -> (r: &'static str)
    ensures
        r@ == name_of_role(role),
{
    match role {
        ColorRole::Bus => "bus",
        ColorRole::GraphicText => "graphic text",
        ColorRole::Wire => "wire",
        _ => "object",
    }
}

/// The number by which KiCad orders items of a kind.
pub open spec fn type_of_kind(kind: ObjectKind) -> int {
    match kind {
        ObjectKind::Text => 53,
        ObjectKind::Junction => 57,
        ObjectKind::NoConnect => 58,
        ObjectKind::Bus | ObjectKind::BusEntry | ObjectKind::Wire => 61,
        ObjectKind::Label => 65,
        ObjectKind::Symbol => 70,
        ObjectKind::Sheet => 73,
    }
}

/// The number by which KiCad orders the item that an expression describes: a global label
/// comes after the other labels, any other item goes by its word, or by `kind` where the word
/// is not known.
pub open spec fn type_of(head: Option<Seq<char>>, kind: ObjectKind) -> int {
    if head == Some("text"@) {
        53
    } else if head == Some("junction"@) {
        57
    } else if head == Some("no_connect"@) {
        58
    } else if head == Some("wire"@) || head == Some("bus"@) || head == Some("bus_entry"@) {
        61
    } else if head == Some("label"@) || head == Some("hierarchical_label"@) {
        65
    } else if head == Some("global_label"@) {
        66
    } else if head == Some("symbol"@) {
        70
    } else if head == Some("sheet"@) {
        73
    } else {
        type_of_kind(kind)
    }
}

/// The number by which KiCad orders the item that an expression describes.
pub fn kicad_item_type(node: &Node, kind: ObjectKind) -> (r: i32)
    ensures
        r == type_of(node@.head(), kind),
{
    let head = node.head();
    if is_text(head, "text") {
        53
    } else if is_text(head, "junction") {
        57
    } else if is_text(head, "no_connect") {
        58
    } else if is_text(head, "wire") || is_text(head, "bus") || is_text(head, "bus_entry") {
        61
    } else if is_text(head, "label") || is_text(head, "hierarchical_label") {
        65
    } else if is_text(head, "global_label") {
        66
    } else if is_text(head, "symbol") {
        70
    } else if is_text(head, "sheet") {
        73
    } else {
        match kind {
            ObjectKind::Text => 53,
            ObjectKind::Junction => 57,
            ObjectKind::NoConnect => 58,
            ObjectKind::Bus | ObjectKind::BusEntry | ObjectKind::Wire => 61,
            ObjectKind::Label => 65,
            ObjectKind::Symbol => 70,
            ObjectKind::Sheet => 73,
        }
    }
}

/// The word begins an item that is drawn.
pub open spec fn is_rendered(kind: Seq<char>) -> bool {
    ||| kind == "bus"@
    ||| kind == "bus_entry"@
    ||| kind == "global_label"@
    ||| kind == "hierarchical_label"@
    ||| kind == "junction"@
    ||| kind == "label"@
    ||| kind == "no_connect"@
    ||| kind == "sheet"@
    ||| kind == "symbol"@
    ||| kind == "text"@
    ||| kind == "wire"@
}

/// The word begins a part of the document that has no picture.
pub open spec fn is_non_visual(kind: Seq<char>) -> bool {
    ||| kind == "bus_alias"@
    ||| kind == "embedded_fonts"@
    ||| kind == "generator"@
    ||| kind == "generator_version"@
    ||| kind == "lib_symbols"@
    ||| kind == "paper"@
    ||| kind == "sheet_instances"@
    ||| kind == "symbol_instances"@
    ||| kind == "title_block"@
    ||| kind == "uuid"@
    ||| kind == "version"@
}

/// The word begins an item that is neither drawn nor without a picture.
pub open spec fn is_unsupported(kind: Seq<char>) -> bool {
    !is_rendered(kind) && !is_non_visual(kind)
}

fn unsupported(kind: &str) -> (r: bool)
    ensures
        r == is_unsupported(kind@),
{
    !(same(kind, "bus") || same(kind, "bus_entry") || same(kind, "global_label") || same(
        kind,
        "hierarchical_label",
    ) || same(kind, "junction") || same(kind, "label") || same(kind, "no_connect") || same(
        kind,
        "sheet",
    ) || same(kind, "symbol") || same(kind, "text") || same(kind, "wire") || same(
        kind,
        "bus_alias",
    ) || same(kind, "embedded_fonts") || same(kind, "generator") || same(
        kind,
        "generator_version",
    ) || same(kind, "lib_symbols") || same(kind, "paper") || same(kind, "sheet_instances")
        || same(kind, "symbol_instances") || same(kind, "title_block") || same(kind, "uuid")
        || same(kind, "version"))
}

/// Items of one kind that cannot be drawn, and how many there are.
pub struct UnsupportedConstruct {
    pub kind: String,
    pub count: usize,
}

/// What of a document cannot be drawn.
pub struct RenderCoverage {
    pub unsupported: Vec<UnsupportedConstruct>,
}

impl RenderCoverage {
    /// Everything is drawn.
    pub fn is_complete(&self) -> (r: bool)
        ensures
            r == (self.unsupported@.len() == 0),
    {
        self.unsupported.len() == 0
    }
}

/// How many of the first `n` parts, without the very first, begin with `kind`.
pub open spec fn heads_upto(items: Seq<crate::sexp::Sexp>, kind: Seq<char>, n: nat) -> nat
    decreases n,
{
    if n <= 1 {
        0
    } else {
        heads_upto(items, kind, (n - 1) as nat) + (if items[n - 1].is_a(kind) {
            1nat
        } else {
            0
        })
    }
}

/// The kinds of a list of constructs.
pub open spec fn kinds(constructs: Seq<UnsupportedConstruct>) -> Seq<Seq<char>> {
    constructs.map_values(|c: UnsupportedConstruct| c.kind@)
}

/// `constructs` are the kinds of items among the first `n` parts of a document that cannot be
/// drawn, in ascending order, each with the number of its items.
pub open spec fn covers(
    constructs: Seq<UnsupportedConstruct>,
    items: Seq<crate::sexp::Sexp>,
    n: nat,
) -> bool {
    &&& crate::text::ascending(kinds(constructs))
    &&& forall|i: int|
        0 <= i < constructs.len() ==> is_unsupported((#[trigger] constructs[i]).kind@)
            && constructs[i].count > 0 && constructs[i].count == heads_upto(
            items,
            constructs[i].kind@,
            n,
        )
    &&& forall|kind: Seq<char>|
        is_unsupported(kind) && #[trigger] heads_upto(items, kind, n) > 0 ==> kinds(
            constructs,
        ).contains(kind)
}

proof fn lemma_heads(items: Seq<crate::sexp::Sexp>, kind: Seq<char>, n: nat)
    ensures
        heads_upto(items, kind, n) <= n,
    decreases n,
{
    if n > 1 {
        lemma_heads(items, kind, (n - 1) as nat);
    }
}

/// Counts one more item of a kind.
fn count_kind(constructs: &mut Vec<UnsupportedConstruct>, kind: &str, Ghost(n): Ghost<nat>, Ghost(
    items,
): Ghost<Seq<crate::sexp::Sexp>>)
    requires
        covers(old(constructs)@, items, n),
        1 <= n < items.len() <= usize::MAX,
        items[n as int].is_a(kind@),
        is_unsupported(kind@),
    ensures
        covers(final(constructs)@, items, n + 1),
{
    let ghost before = constructs@;
    proof {
        assert forall|k: Seq<char>| heads_upto(items, k, n + 1) == #[trigger] heads_upto(
            items,
            k,
            n,
        ) + (if k == kind@ {
            1nat
        } else {
            0
        }) by {}
    }
    let mut i: usize = 0;
    while i < constructs.len() && crate::text::str_less(constructs[i].kind.as_str(), kind)
        invariant
            constructs@ == before,
            i <= before.len(),
            forall|k: int|
                0 <= k < i ==> crate::text::lex_less((#[trigger] before[k]).kind@, kind@),
        decreases before.len() - i,
    {
        i = i + 1;
    }
    if i < constructs.len() && same(constructs[i].kind.as_str(), kind) {
        proof {
            lemma_heads(items, kind@, n);
            assert(before[i as int].count == heads_upto(items, kind@, n));
        }
        let one_more: usize = constructs[i].count + 1;
        let name = constructs[i].kind.clone();
        constructs[i] = UnsupportedConstruct { kind: name, count: one_more };
        proof {
            assert(kinds(constructs@) =~= kinds(before));
            assert forall|j: int| 0 <= j < constructs@.len() implies is_unsupported(
                (#[trigger] constructs@[j]).kind@,
            ) && constructs@[j].count > 0 && constructs@[j].count == heads_upto(
                items,
                constructs@[j].kind@,
                n + 1,
            ) by {
                if j != i {
                    assert(constructs@[j] == before[j]);
                    crate::text::lex_less_is_total(kinds(before)[i as int], kinds(before)[j]);
                    if j < i {
                        assert(crate::text::lex_less(kinds(before)[j], kinds(before)[i as int]));
                    } else {
                        assert(crate::text::lex_less(kinds(before)[i as int], kinds(before)[j]));
                    }
                }
            }
            assert forall|k: Seq<char>|
                is_unsupported(k) && #[trigger] heads_upto(items, k, n + 1) > 0 implies kinds(
                constructs@,
            ).contains(k) by {
                if k == kind@ {
                    assert(kinds(constructs@)[i as int] == k);
                } else {
                    assert(heads_upto(items, k, n) > 0);
                }
            }
        }
        return ;
    }
    constructs.insert(i, UnsupportedConstruct { kind: kind.to_owned(), count: 1 });
    proof {
        let a = kinds(before);
        let b = kinds(constructs@);
        assert(b =~= a.insert(i as int, kind@));
        assert forall|k: int| i <= k < a.len() implies crate::text::lex_less(
            kind@,
            #[trigger] a[k],
        ) by {
            crate::text::lex_less_is_total(kind@, a[i as int]);
            if k > i {
                assert(crate::text::lex_less(a[i as int], a[k]));
                crate::text::lex_less_is_transitive(kind@, a[i as int], a[k]);
            }
        }
        assert forall|x: int, y: int|
            #![trigger b[x], b[y]]
            0 <= x < y < b.len() implies crate::text::lex_less(b[x], b[y]) by {
            let p = if x < i {
                x
            } else {
                x - 1
            };
            let q = if y < i {
                y
            } else {
                y - 1
            };
            if x != i {
                assert(b[x] == a[p]);
            }
            if y != i {
                assert(b[y] == a[q]);
            }
            if y == i {
                assert(before[x].kind@ == a[x]);
            }
        }
        assert(heads_upto(items, kind@, n) == 0) by {
            if heads_upto(items, kind@, n) > 0 {
                assert(a.contains(kind@));
                let k = choose|k: int| 0 <= k < a.len() && a[k] == kind@;
                crate::text::lex_less_is_total(kind@, kind@);
                if k < i {
                    assert(before[k].kind@ == a[k]);
                }
            }
        }
        assert forall|j: int| 0 <= j < constructs@.len() implies is_unsupported(
            (#[trigger] constructs@[j]).kind@,
        ) && constructs@[j].count > 0 && constructs@[j].count == heads_upto(
            items,
            constructs@[j].kind@,
            n + 1,
        ) by {
            if j < i {
                assert(constructs@[j] == before[j]);
            } else if j > i {
                assert(constructs@[j] == before[j - 1]);
            }
            if j != i {
                crate::text::lex_less_is_total(b[i as int], b[j]);
                if j < i {
                    assert(crate::text::lex_less(b[j], b[i as int]));
                } else {
                    assert(crate::text::lex_less(b[i as int], b[j]));
                }
            }
        }
        assert forall|k: Seq<char>|
            is_unsupported(k) && #[trigger] heads_upto(items, k, n + 1) > 0 implies b.contains(
            k,
        ) by {
            if k == kind@ {
                assert(b[i as int] == k);
            } else {
                assert(heads_upto(items, k, n) > 0);
                assert(a.contains(k));
                let p = choose|p: int| 0 <= p < a.len() && a[p] == k;
                if p < i {
                    assert(b[p] == k);
                } else {
                    assert(b[p + 1] == k);
                }
            }
        }
    }
}

proof fn lemma_passed_over(
    constructs: Seq<UnsupportedConstruct>,
    items: Seq<crate::sexp::Sexp>,
    n: nat,
)
    requires
        covers(constructs, items, n),
        1 <= n < items.len(),
        items[n as int].head() matches Some(kind) ==> !is_unsupported(kind),
    ensures
        covers(constructs, items, n + 1),
{
    assert forall|i: int| 0 <= i < constructs.len() implies is_unsupported(
        (#[trigger] constructs[i]).kind@,
    ) && constructs[i].count > 0 && constructs[i].count == heads_upto(
        items,
        constructs[i].kind@,
        n + 1,
    ) by {}
    assert forall|kind: Seq<char>|
        is_unsupported(kind) && #[trigger] heads_upto(items, kind, n + 1) > 0 implies kinds(
        constructs,
    ).contains(kind) by {
        assert(heads_upto(items, kind, n) > 0);
    }
}

/// Accounts for the items of a document that cannot be drawn.
pub fn analyze_render_coverage(root: &Node) -> (r: RenderCoverage)
    ensures
        covers(r.unsupported@, root@.items(), root@.items().len()),
{
    let mut constructs: Vec<UnsupportedConstruct> = Vec::new();
    let n: usize = root.count();
    let ghost items = root@.items();
    if n == 0 {
        return RenderCoverage { unsupported: constructs };
    }
    let mut i: usize = 1;
    while i < n
        invariant
            1 <= i <= n,
            n == items.len(),
            items == root@.items(),
            covers(constructs@, items, i as nat),
        decreases n - i,
    {
        let mut kind: Option<&str> = None;
        if let Some(child) = root.get(i) {
            kind = child.head();
        }
        let counted: bool = match kind {
            Some(kind) => unsupported(kind),
            None => false,
        };
        if counted {
            if let Some(kind) = kind {
                count_kind(&mut constructs, kind, Ghost(i as nat), Ghost(items));
            }
        } else {
            proof {
                lemma_passed_over(constructs@, items, i as nat);
            }
        }
        i = i + 1;
    }
    RenderCoverage { unsupported: constructs }
}

/// The strings with line ends between them.
pub open spec fn in_lines(fields: Seq<Seq<char>>, n: nat) -> Seq<char>
    decreases n,
{
    if n == 0 {
        Seq::empty()
    } else if n == 1 {
        fields[0]
    } else {
        in_lines(fields, (n - 1) as nat) + "\n"@ + fields[n - 1]
    }
}

/// A value, where there is one.
pub open spec fn if_any(s: Option<Seq<char>>) -> Seq<Seq<char>> {
    match s {
        Some(s) => seq![s],
        None => Seq::empty(),
    }
}

/// The names and values of the first `n` properties.
pub open spec fn property_fields(properties: Seq<crate::sexp::Sexp>, n: nat) -> Seq<Seq<char>>
    decreases n,
{
    if n == 0 {
        Seq::empty()
    } else {
        property_fields(properties, (n - 1) as nat) + if_any(properties[n - 1].part_text(1))
            + if_any(properties[n - 1].part_text(2))
    }
}

/// What an object can be found by.
pub open spec fn search_fields(
    node: crate::sexp::Sexp,
    label: Seq<char>,
    uuid: Seq<char>,
) -> Seq<Seq<char>> {
    seq![label, uuid] + if_any(node.part_text(1)) + if_any(node.first_text("lib_id"@))
        + property_fields(node.properties(), node.properties().len())
}

/// The text that an object can be found by.
pub open spec fn search_text(
    node: crate::sexp::Sexp,
    label: Seq<char>,
    uuid: Seq<char>,
) -> Seq<char> {
    let fields = search_fields(node, label, uuid);
    in_lines(fields, fields.len())
}

/// Adds a line to a text that has one already.
fn add_line(text: &mut String, line: Option<&str>, Ghost(fields): Ghost<Seq<Seq<char>>>)
    requires
        fields.len() > 0,
        old(text)@ == in_lines(fields, fields.len()),
    ensures
        ({
            let more = fields + if_any(crate::sexp::ref_view(line));
            final(text)@ == in_lines(more, more.len())
        }),
{
    match line {
        Some(line) => {
            let ghost more = fields.push(line@);
            text.append("\n");
            text.append(line);
            proof {
                lemma_lines_prefix(fields, more, fields.len());
                assert(fields + if_any(Some(line@)) =~= more);
            }
        },
        None => {
            assert(fields + if_any(None) =~= fields);
        },
    }
}

proof fn lemma_lines_prefix(a: Seq<Seq<char>>, b: Seq<Seq<char>>, n: nat)
    requires
        n <= a.len() <= b.len(),
        a =~= b.take(a.len() as int),
    ensures
        in_lines(a, n) == in_lines(b, n),
    decreases n,
{
    if n > 0 {
        lemma_lines_prefix(a, b, (n - 1) as nat);
        assert(a[n - 1] == b[n - 1]);
        assert(a[0] == b[0]);
    }
}

/// The text that an object can be found by.
pub fn object_search_text(node: &Node, label: &str, uuid: &str) -> (r: String)
    ensures
        r@ == search_text(node@, label@, uuid@),
{
    let ghost mut fields = seq![label@];
    let mut r = label.to_owned();
    assert(r@ == in_lines(fields, 1));
    add_line(&mut r, Some(uuid), Ghost(fields));
    proof {
        fields = fields + if_any(Some(uuid@));
        assert(fields =~= seq![label@, uuid@]);
    }
    let value = node.get_str(1);
    add_line(&mut r, value, Ghost(fields));
    proof {
        fields = fields + if_any(node@.part_text(1));
    }
    let library = node.find_str("lib_id");
    add_line(&mut r, library, Ghost(fields));
    proof {
        fields = fields + if_any(node@.first_text("lib_id"@));
    }
    let properties = node.find_all("property");
    let ghost all = node@.properties();
    let mut i: usize = 0;
    assert(fields + property_fields(all, 0) =~= fields);
    while i < properties.len()
        invariant
            i <= properties@.len(),
            all == crate::sexp::ref_sexps(properties@),
            fields.len() > 0,
            ({
                let so_far = fields + property_fields(all, i as nat);
                r@ == in_lines(so_far, so_far.len())
            }),
        decreases properties@.len() - i,
    {
        assert(all[i as int] == properties@[i as int]@);
        let name = properties[i].get_str(1);
        let ghost so_far = fields + property_fields(all, i as nat);
        add_line(&mut r, name, Ghost(so_far));
        let value = properties[i].get_str(2);
        let ghost with_name = so_far + if_any(all[i as int].part_text(1));
        add_line(&mut r, value, Ghost(with_name));
        assert(with_name + if_any(all[i as int].part_text(2)) =~= fields + property_fields(
            all,
            (i + 1) as nat,
        ));
        i = i + 1;
    }
    assert(fields + property_fields(all, all.len()) =~= search_fields(node@, label@, uuid@));
    r
}

/// A line of what is known of an object.
pub struct ObjectProperty {
    pub name: String,
    pub value: String,
}

impl ObjectProperty {
    pub open spec fn model(self) -> (Seq<char>, Seq<char>) {
        (self.name@, self.value@)
    }
}

/// The lines as values.
pub open spec fn property_lines(properties: Seq<ObjectProperty>) -> Seq<(Seq<char>, Seq<char>)> {
    properties.map_values(|p: ObjectProperty| p.model())
}

/// The words of labels and texts.
pub open spec fn is_worded(node: crate::sexp::Sexp) -> bool {
    ||| node.is_a("label"@)
    ||| node.is_a("global_label"@)
    ||| node.is_a("hierarchical_label"@)
    ||| node.is_a("text"@)
}

pub open spec fn text_or(s: Option<Seq<char>>, default: Seq<char>) -> Seq<char> {
    match s {
        Some(s) => s,
        None => default,
    }
}

/// The lines of the first `n` properties that have a name and a value.
pub open spec fn own_lines(properties: Seq<crate::sexp::Sexp>, n: nat) -> Seq<
    (Seq<char>, Seq<char>),
>
    decreases n,
{
    if n == 0 {
        Seq::empty()
    } else {
        let before = own_lines(properties, (n - 1) as nat);
        match (properties[n - 1].part_text(1), properties[n - 1].part_text(2)) {
            (Some(name), Some(value)) => before.push((name, value)),
            _ => before,
        }
    }
}

/// The line about where an item stands.
pub open spec fn position_line(at: crate::sexp::Sexp) -> (Seq<char>, Seq<char>) {
    (
        "Position"@,
        text_or(at.part_text(1), "?"@) + ", "@ + text_or(at.part_text(2), "?"@) + " · "@
            + text_or(at.part_text(3), "0"@) + "°"@,
    )
}

/// What is known of an object, line by line.
pub open spec fn known_of(node: crate::sexp::Sexp) -> Seq<(Seq<char>, Seq<char>)> {
    (match node.first_text("lib_id"@) {
        Some(library) => seq![("Library"@, library)],
        None => Seq::empty(),
    }) + (match (is_worded(node), node.part_text(1)) {
        (true, Some(text)) => seq![("Text"@, text)],
        _ => Seq::empty(),
    }) + (match node.first("at"@) {
        Some(at) => seq![position_line(at)],
        None => Seq::empty(),
    }) + own_lines(node.properties(), node.properties().len())
}

fn or_else<'a>(s: Option<&'a str>, default: &'a str) -> (r: &'a str)
    ensures
        r@ == text_or(crate::sexp::ref_view(s), default@),
{
    match s {
        Some(s) => s,
        None => default,
    }
}

/// What is known of an object, line by line.
pub fn object_properties(node: &Node) -> (r: Vec<ObjectProperty>)
    ensures
        property_lines(r@) == known_of(node@),
{
    let mut r: Vec<ObjectProperty> = Vec::new();
    let ghost mut lines: Seq<(Seq<char>, Seq<char>)> = Seq::empty();
    assert(property_lines(r@) =~= lines);
    if let Some(library) = node.find_str("lib_id") {
        r.push(ObjectProperty { name: "Library".to_owned(), value: library.to_owned() });
    }
    proof {
        lines = match node@.first_text("lib_id"@) {
            Some(library) => seq![("Library"@, library)],
            None => Seq::empty(),
        };
        assert(property_lines(r@) =~= lines);
    }
    if node.is_a("label") || node.is_a("global_label") || node.is_a("hierarchical_label")
        || node.is_a("text") {
        if let Some(value) = node.get_str(1) {
            r.push(ObjectProperty { name: "Text".to_owned(), value: value.to_owned() });
        }
    }
    proof {
        lines = lines + (match (is_worded(node@), node@.part_text(1)) {
            (true, Some(text)) => seq![("Text"@, text)],
            _ => Seq::empty(),
        });
        assert(property_lines(r@) =~= lines);
    }
    if let Some(at) = node.find("at") {
        let mut value = or_else(at.get_str(1), "?").to_owned();
        value.append(", ");
        value.append(or_else(at.get_str(2), "?"));
        value.append(" · ");
        value.append(or_else(at.get_str(3), "0"));
        value.append("°");
        r.push(ObjectProperty { name: "Position".to_owned(), value });
    }
    proof {
        lines = lines + (match node@.first("at"@) {
            Some(at) => seq![position_line(at)],
            None => Seq::empty(),
        });
        assert(property_lines(r@) =~= lines);
    }
    let properties = node.find_all("property");
    let ghost all = node@.properties();
    let mut i: usize = 0;
    assert(lines + own_lines(all, 0) =~= lines);
    while i < properties.len()
        invariant
            i <= properties@.len(),
            all == crate::sexp::ref_sexps(properties@),
            property_lines(r@) =~= lines + own_lines(all, i as nat),
        decreases properties@.len() - i,
    {
        assert(all[i as int] == properties@[i as int]@);
        let ghost before = property_lines(r@);
        let name = properties[i].get_str(1);
        let value = properties[i].get_str(2);
        if let Some(name) = name {
            if let Some(value) = value {
                r.push(ObjectProperty { name: name.to_owned(), value: value.to_owned() });
                assert(property_lines(r@) =~= before.push((name@, value@)));
            }
        }
        i = i + 1;
    }
    r
}

/// The characters that stand for `c` in the text of a picture file.
pub open spec fn escaped_char(c: char) -> Seq<char> {
    if c == '&' {
        "&amp;"@
    } else if c == '<' {
        "&lt;"@
    } else if c == '>' {
        "&gt;"@
    } else {
        seq![c]
    }
}

/// The first `n` characters as they stand in the text of a picture file.
pub open spec fn escaped(s: Seq<char>, n: nat) -> Seq<char>
    decreases n,
{
    if n == 0 {
        Seq::empty()
    } else {
        escaped(s, (n - 1) as nat) + escaped_char(s[n - 1])
    }
}

/// How a picture file marks the drawing of a symbol with the given reference.
pub open spec fn mark_of(reference: Seq<char>) -> Seq<char> {
    "<desc>"@ + escaped(reference, reference.len()) + "</desc>"@
}

fn to_mark(reference: &str) -> (r: Vec<char>)
    ensures
        r@ == mark_of(reference@),
{
    let chars = crate::text::chars_of(reference);
    let mut text = "<desc>".to_owned();
    let mut i: usize = 0;
    assert(text@ =~= "<desc>"@ + escaped(reference@, 0));
    while i < chars.len()
        invariant
            i <= chars@.len(),
            chars@ == reference@,
            text@ == "<desc>"@ + escaped(reference@, i as nat),
        decreases chars@.len() - i,
    {
        let c = chars[i];
        let ghost before = text@;
        if c == '&' {
            text.append("&amp;");
        } else if c == '<' {
            text.append("&lt;");
        } else if c == '>' {
            text.append("&gt;");
        } else {
            text.push(c);
        }
        assert(text@ =~= before + escaped_char(c));
        assert(text@ =~= "<desc>"@ + escaped(reference@, (i + 1) as nat));
        i = i + 1;
    }
    text.append("</desc>");
    crate::text::chars_of(text.as_str())
}

/// Where `needle` stands next in `s`, from `from` on.
pub open spec fn next_place(s: Seq<char>, needle: Seq<char>, from: nat) -> Option<nat>
    decreases s.len() + 1 - from,
{
    if from + needle.len() > s.len() {
        None
    } else if s.subrange(from as int, (from + needle.len()) as int) == needle {
        Some(from)
    } else {
        next_place(s, needle, from + 1)
    }
}

/// Where `needle` stands in `s`, from `from` on, after it stood there `skip` times, none of
/// them inside another.
pub open spec fn place_after(s: Seq<char>, needle: Seq<char>, from: nat, skip: nat) -> Option<nat>
    decreases skip,
{
    match next_place(s, needle, from) {
        None => None,
        Some(at) => if skip == 0 {
            Some(at)
        } else {
            place_after(s, needle, at + needle.len(), (skip - 1) as nat)
        },
    }
}

/// Where `needle` stands next in `s`, from `from` on.
pub fn find_next(s: &Vec<char>, needle: &Vec<char>, from: usize) -> (r: Option<usize>)
    ensures
        match r {
            Some(at) => next_place(s@, needle@, from as nat) == Some(at as nat) && at
                + needle@.len() <= s@.len(),
            None => next_place(s@, needle@, from as nat) is None,
        },
{
    let mut at: usize = from;
    let len: usize = s.len();
    while at <= len && needle.len() <= len - at
        invariant
            next_place(s@, needle@, from as nat) == next_place(s@, needle@, at as nat),
            s@.len() == len,
        decreases s@.len() + 1 - at,
    {
        if crate::text::occurs_at(s, at, needle) {
            return Some(at);
        }
        if at == len {
            assert(next_place(s@, needle@, (at + 1) as nat) is None);
            return None;
        }
        at = at + 1;
    }
    None
}

fn find_after(s: &Vec<char>, needle: &Vec<char>, occurrence: usize) -> (r: Option<usize>)
    ensures
        match r {
            Some(at) => place_after(s@, needle@, 0, occurrence as nat) == Some(at as nat),
            None => place_after(s@, needle@, 0, occurrence as nat) is None,
        },
{
    let mut from: usize = 0;
    let mut skip: usize = occurrence;
    loop
        invariant
            place_after(s@, needle@, 0, occurrence as nat) == place_after(
                s@,
                needle@,
                from as nat,
                skip as nat,
            ),
        decreases skip,
    {
        match find_next(s, needle, from) {
            None => {
                return None;
            },
            Some(at) => {
                if skip == 0 {
                    return Some(at);
                }
                assert(at + needle@.len() <= s.len());
                from = at + needle.len();
                skip = skip - 1;
            },
        }
    }
}

/// A reference and the place of its symbol among those of a picture file.
pub struct ReferenceRank {
    pub reference: String,
    pub rank: usize,
}

/// A reference whose mark was found, and where.
pub ghost struct Found {
    pub reference: Seq<char>,
    pub at: nat,
}

/// Those of the first `n` references whose mark stands in the picture file so many times.
pub open spec fn found_upto(
    svg: Seq<char>,
    references: Seq<Seq<char>>,
    occurrence: nat,
    n: nat,
) -> Seq<Found>
    decreases n,
{
    if n == 0 {
        Seq::empty()
    } else {
        let before = found_upto(svg, references, occurrence, (n - 1) as nat);
        match place_after(svg, mark_of(references[n - 1]), 0, occurrence) {
            Some(at) => before.push(Found { reference: references[n - 1], at }),
            None => before,
        }
    }
}

/// What stands earlier.
pub open spec fn by_place(found: Seq<Found>) -> spec_fn(usize, usize) -> bool {
    |a: usize, b: usize| found[a as int].at < found[b as int].at
}

/// `ranks` names what was found in the order of the places, and numbers it.
pub open spec fn ranks_found(ranks: Seq<ReferenceRank>, found: Seq<Found>) -> bool {
    exists|order: Seq<usize>| {
        &&& #[trigger] crate::ordering::is_stable_order(order, found.len(), by_place(found))
        &&& ranks.len() == found.len()
        &&& forall|k: int|
            0 <= k < ranks.len() ==> (#[trigger] ranks[k]).rank == k && ranks[k].reference@
                == found[order[k] as int].reference
    }
}

/// A reference and a number.
pub ghost struct Ranked {
    pub reference: Seq<char>,
    pub rank: nat,
}

/// The ranks as values.
pub open spec fn ranked(ranks: Seq<ReferenceRank>) -> Seq<Ranked> {
    ranks.map_values(|r: ReferenceRank| Ranked { reference: r.reference@, rank: r.rank as nat })
}

/// What was found, in the order of the places, numbered.
pub open spec fn numbered(found: Seq<Found>) -> Seq<Ranked> {
    let order = crate::ordering::stable_by(found.len(), by_place(found));
    Seq::new(
        found.len(),
        |k: int| Ranked { reference: found[order[k] as int].reference, rank: k as nat },
    )
}

/// The numbers of the symbols by where a picture file draws them.
pub open spec fn svg_ranks(svg: Seq<char>, references: Seq<Seq<char>>, occurrence: nat) -> Option<
    Seq<Ranked>,
> {
    let found = found_upto(svg, references, occurrence, references.len());
    if found.len() == 0 {
        None
    } else {
        Some(numbered(found))
    }
}

/// Numbers the symbols by where a picture file draws them: for each reference the `occurrence`th
/// mark counts, from zero on. `None` where no mark is found.
pub fn svg_reference_ranks(svg: &str, references: &Vec<String>, occurrence: usize) -> (r: Option<
    Vec<ReferenceRank>,
>)
    ensures
        ({
            let found = found_upto(
                svg@,
                crate::text::views(references@),
                occurrence as nat,
                references@.len(),
            );
            match r {
                Some(ranks) => found.len() > 0 && ranks_found(ranks@, found),
                None => found.len() == 0,
            }
        }),
        match r {
            Some(ranks) => svg_ranks(
                svg@,
                crate::text::views(references@),
                occurrence as nat,
            ) == Some(ranked(ranks@)),
            None => svg_ranks(svg@, crate::text::views(references@), occurrence as nat) is None,
        },
{
    let text = crate::text::chars_of(svg);
    let ghost names = crate::text::views(references@);
    let mut places: Vec<u64> = Vec::new();
    let mut which: Vec<usize> = Vec::new();
    let ghost mut found: Seq<Found> = Seq::empty();
    let mut i: usize = 0;
    while i < references.len()
        invariant
            i <= references@.len(),
            names == crate::text::views(references@),
            text@ == svg@,
            found == found_upto(svg@, names, occurrence as nat, i as nat),
            places@.len() == found.len(),
            which@.len() == found.len(),
            found.len() <= i,
            forall|k: int| 0 <= k < found.len() ==> (#[trigger] found[k]).at == places@[k],
            forall|k: int| 0 <= k < found.len() ==> (#[trigger] which@[k]) < references@.len(),
            forall|k: int|
                0 <= k < found.len() ==> (#[trigger] found[k]).reference
                    == references@[which@[k] as int]@,
        decreases references@.len() - i,
    {
        assert(names[i as int] == references@[i as int]@);
        let mark = to_mark(references[i].as_str());
        let place = find_after(&text, &mark, occurrence);
        if let Some(at) = place {
            places.push(at as u64);
            which.push(i);
        }
        proof {
            found = found_upto(svg@, names, occurrence as nat, (i + 1) as nat);
        }
        i = i + 1;
    }
    if places.len() == 0 {
        return None;
    }
    let order = crate::ordering::stable_order(&places);
    let mut ranks: Vec<ReferenceRank> = Vec::new();
    let mut k: usize = 0;
    while k < order.len()
        invariant
            k <= order@.len() == found.len(),
            which@.len() == found.len(),
            ranks@.len() == k,
            crate::ordering::is_stable_order(
                order@,
                found.len(),
                crate::ordering::by_key(places@),
            ),
            forall|k: int| 0 <= k < found.len() ==> (#[trigger] which@[k]) < references@.len(),
            forall|k: int|
                0 <= k < found.len() ==> (#[trigger] found[k]).reference
                    == references@[which@[k] as int]@,
            forall|j: int|
                0 <= j < k ==> (#[trigger] ranks@[j]).rank == j && ranks@[j].reference@
                    == found[order@[j] as int].reference,
        decreases order@.len() - k,
    {
        assert(order@[k as int] < found.len());
        assert(found[order@[k as int] as int].reference == references@[which@[order@[k as int] as int] as int]@);
        ranks.push(ReferenceRank { reference: references[which[order[k]]].clone(), rank: k });
        k = k + 1;
    }
    proof {
        let lt = by_place(found);
        assert forall|i: int, j: int|
            #![trigger order@[i], order@[j]]
            0 <= i < j < found.len() implies lt(order@[i], order@[j]) || (!lt(
            order@[j],
            order@[i],
        ) && order@[i] < order@[j]) by {
            let earlier = crate::ordering::by_key(places@);
            assert(earlier(order@[i], order@[j]) || (!earlier(order@[j], order@[i]) && order@[i]
                < order@[j]));
            assert(found[order@[i] as int].at == places@[order@[i] as int]);
            assert(found[order@[j] as int].at == places@[order@[j] as int]);
        }
        assert(crate::ordering::is_stable_order(order@, found.len(), lt));
        assert(ranks_found(ranks@, found));
        assert(crate::stl_sort::strict_weak_order(lt));
        crate::ordering::stable_order_is_known(order@, found.len(), lt);
        assert(ranked(ranks@) =~= numbered(found));
    }
    Some(ranks)
}

/// The rank of a reference; the last counts where it is ranked twice.
pub open spec fn rank_upto(ranks: Seq<Ranked>, reference: Seq<char>, n: nat) -> Option<nat>
    decreases n,
{
    if n == 0 {
        None
    } else if ranks[n - 1].reference == reference {
        Some(ranks[n - 1].rank)
    } else {
        rank_upto(ranks, reference, (n - 1) as nat)
    }
}

/// The rank of a reference; the last counts where it is ranked twice.
pub fn rank_of(ranks: &Vec<ReferenceRank>, reference: &str) -> (r: Option<usize>)
    ensures
        match r {
            Some(rank) => rank_upto(ranked(ranks@), reference@, ranks@.len()) == Some(
                rank as nat,
            ),
            None => rank_upto(ranked(ranks@), reference@, ranks@.len()) is None,
        },
{
    let mut n: usize = ranks.len();
    while n > 0
        invariant
            n <= ranks@.len(),
            rank_upto(ranked(ranks@), reference@, ranks@.len()) == rank_upto(
                ranked(ranks@),
                reference@,
                n as nat,
            ),
        decreases n,
    {
        if same(ranks[n - 1].reference.as_str(), reference) {
            return Some(ranks[n - 1].rank);
        }
        n = n - 1;
    }
    None
}

} // verus!
