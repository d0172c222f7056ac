//! By what an object is found, what is told of it, and what of a document is not drawn.

use crate::document_drawing::SchematicScene;
use crate::geometry::Bounds;
use crate::geometry::Point;
use crate::scene::UnsupportedConstruct;
use crate::scene_builder::SceneObject;
use crate::scene_builder::Thing;
use crate::sheet_facts::SheetRect;
use crate::sheet_facts::Side;
use crate::scene::ObjectKind;
use vstd::prelude::*;

verus! {

proof fn lemma_inside(s: Seq<char>, before: Seq<char>, part: Seq<char>, after: Seq<char>)
    requires
        s == before + part + after,
    ensures
        crate::text::occurs(s, part),
{
    let i = before.len() as int;
    assert(s.subrange(i, i + part.len()) =~= part);
}

proof fn lemma_within(whole: Seq<char>, s: Seq<char>, part: Seq<char>, before: Seq<char>, after: Seq<
    char,
>)
    requires
        crate::text::occurs(s, part),
        whole == before + s + after,
    ensures
        crate::text::occurs(whole, part),
{
    let i = choose|i: int|
        0 <= i && i + part.len() <= s.len() && #[trigger] s.subrange(i, i + part.len()) == part;
    let j = before.len() + i;
    assert(whole.subrange(j, j + part.len()) =~= s.subrange(i, i + part.len()));
}

proof fn lemma_line(fields: Seq<Seq<char>>, n: nat, k: int)
    requires
        0 <= k < n <= fields.len(),
    ensures
        crate::text::occurs(crate::scene::in_lines(fields, n), fields[k]),
    decreases n,
{
    let all = crate::scene::in_lines(fields, n);
    let none = Seq::<char>::empty();
    if n == 1 {
        assert(all =~= none + fields[0] + none);
        lemma_inside(all, none, fields[0], none);
    } else {
        let before = crate::scene::in_lines(fields, (n - 1) as nat);
        if k == n - 1 {
            assert(all =~= (before + "\n"@) + fields[k] + none);
            lemma_inside(all, before + "\n"@, fields[k], none);
        } else {
            lemma_line(fields, (n - 1) as nat, k);
            assert(all =~= none + before + ("\n"@ + fields[n - 1]));
            lemma_within(all, before, fields[k], none, "\n"@ + fields[n - 1]);
        }
    }
}

proof fn lemma_property_fields(properties: Seq<crate::sexp::Sexp>, n: nat, k: int, text: Seq<char>)
    requires
        0 <= k < n <= properties.len(),
        properties[k].part_text(1) == Some(text) || properties[k].part_text(2) == Some(text),
    ensures
        crate::scene::property_fields(properties, n).contains(text),
    decreases n,
{
    let before = crate::scene::property_fields(properties, (n - 1) as nat);
    let name = crate::scene::if_any(properties[n - 1].part_text(1));
    let value = crate::scene::if_any(properties[n - 1].part_text(2));
    if k < n - 1 {
        lemma_property_fields(properties, (n - 1) as nat, k, text);
    } else if properties[k].part_text(1) == Some(text) {
        assert(name[0] == text);
        assert(name.contains(text));
    } else {
        assert(value[0] == text);
        assert(value.contains(text));
    }
    crate::sequences::either_holds(before + name, value, text);
    crate::sequences::either_holds(before, name, text);
}

/// A text is one that an object says: what it is called, its identifier, its own text, the name of
/// its definition, or the name or the value of one of its properties.
pub open spec fn says(
    node: crate::sexp::Sexp,
    label: Seq<char>,
    uuid: Seq<char>,
    text: Seq<char>,
) -> bool {
    ||| text == label
    ||| text == uuid
    ||| node.part_text(1) == Some(text)
    ||| node.first_text("lib_id"@) == Some(text)
    ||| exists|k: int|
        0 <= k < node.items().len() && (#[trigger] node.items()[k]).part_text(0) == Some(
            "property"@,
        ) && (node.items()[k].part_text(1) == Some(text) || node.items()[k].part_text(2) == Some(
            text,
        ))
}

/// Whatever an object says is part of the text that it is found by.
pub proof fn objects_are_found_by_what_they_say(
    node: crate::sexp::Sexp,
    label: Seq<char>,
    uuid: Seq<char>,
    text: Seq<char>,
)
    requires
        says(node, label, uuid, text),
    ensures
        crate::text::occurs(crate::scene::search_text(node, label, uuid), text),
{
    let fields = crate::scene::search_fields(node, label, uuid);
    let properties = node.tagged("property"@);
    let base = seq![label, uuid];
    let own = crate::scene::if_any(node.part_text(1));
    let library = crate::scene::if_any(node.first_text("lib_id"@));
    let rest = crate::scene::property_fields(properties, properties.len());
    assert(fields == base + own + library + rest);
    crate::sequences::either_holds(base + own + library, rest, text);
    crate::sequences::either_holds(base + own, library, text);
    crate::sequences::either_holds(base, own, text);
    assert(base[0] == label && base[1] == uuid);
    if node.part_text(1) == Some(text) {
        assert(own[0] == text);
    } else if node.first_text("lib_id"@) == Some(text) {
        assert(library[0] == text);
    } else if text != label && text != uuid {
        let k = choose|k: int|
            0 <= k < node.items().len() && (#[trigger] node.items()[k]).part_text(0) == Some(
                "property"@,
            ) && (node.items()[k].part_text(1) == Some(text) || node.items()[k].part_text(2)
                == Some(text));
        crate::sexp::tagged_parts_are_found(node, "property"@, k);
        let j = choose|j: int| 0 <= j < properties.len() && properties[j] == node.items()[k];
        lemma_property_fields(properties, properties.len(), j, text);
    }
    assert(fields.contains(text));
    let i = choose|i: int| 0 <= i < fields.len() && fields[i] == text;
    lemma_line(fields, fields.len(), i);
}

proof fn lemma_own_lines(
    properties: Seq<crate::sexp::Sexp>,
    n: nat,
    line: (Seq<char>, Seq<char>),
)
    requires
        n <= properties.len(),
    ensures
        crate::scene::own_lines(properties, n).contains(line) <==> exists|k: int|
            0 <= k < n && (#[trigger] properties[k]).part_text(1) == Some(line.0)
                && properties[k].part_text(2) == Some(line.1),
    decreases n,
{
    if n > 0 {
        lemma_own_lines(properties, (n - 1) as nat, line);
        let before = crate::scene::own_lines(properties, (n - 1) as nat);
        if let (Some(name), Some(value)) = (
            properties[n - 1].part_text(1),
            properties[n - 1].part_text(2),
        ) {
            crate::sequences::pushed_holds(before, (name, value), line);
        }
        if before.contains(line) {
            let k = choose|k: int|
                0 <= k < n - 1 && (#[trigger] properties[k]).part_text(1) == Some(line.0)
                    && properties[k].part_text(2) == Some(line.1);
            assert(properties[k].part_text(1) == Some(line.0));
        }
    }
}

/// Every property of an object that has a name and a value is told of it, and so are the name of its
/// definition and the words of a label or a text.
pub proof fn what_is_known_is_told(node: crate::sexp::Sexp, name: Seq<char>, value: Seq<char>)
    ensures
        (exists|k: int|
            0 <= k < node.items().len() && (#[trigger] node.items()[k]).part_text(0) == Some(
                "property"@,
            ) && node.items()[k].part_text(1) == Some(name) && node.items()[k].part_text(2) == Some(
                value,
            )) ==> crate::scene::known_of(node).contains((name, value)),
        node.first_text("lib_id"@) == Some(value) ==> crate::scene::known_of(node).contains(
            ("Library"@, value),
        ),
        node.part_text(1) == Some(value) && (node.part_text(0) == Some("label"@) || node.part_text(
            0,
        ) == Some("global_label"@) || node.part_text(0) == Some("hierarchical_label"@)
            || node.part_text(0) == Some("text"@)) ==> crate::scene::known_of(node).contains(
            ("Text"@, value),
        ),
{
    let properties = node.tagged("property"@);
    let a: Seq<(Seq<char>, Seq<char>)> = match node.first_text("lib_id"@) {
        Some(library) => seq![("Library"@, library)],
        None => Seq::empty(),
    };
    let b: Seq<(Seq<char>, Seq<char>)> = match (crate::scene::is_worded(node), node.part_text(1)) {
        (true, Some(text)) => seq![("Text"@, text)],
        _ => Seq::empty(),
    };
    let c: Seq<(Seq<char>, Seq<char>)> = match node.first("at"@) {
        Some(at) => seq![crate::scene::position_line(at)],
        None => Seq::empty(),
    };
    let d = crate::scene::own_lines(properties, properties.len());
    let all = crate::scene::known_of(node);
    assert(all == a + b + c + d);
    if exists|k: int|
        0 <= k < node.items().len() && (#[trigger] node.items()[k]).part_text(0) == Some(
            "property"@,
        ) && node.items()[k].part_text(1) == Some(name) && node.items()[k].part_text(2) == Some(
            value,
        ) {
        let k = choose|k: int|
            0 <= k < node.items().len() && (#[trigger] node.items()[k]).part_text(0) == Some(
                "property"@,
            ) && node.items()[k].part_text(1) == Some(name) && node.items()[k].part_text(2) == Some(
                value,
            );
        crate::sexp::tagged_parts_are_found(node, "property"@, k);
        let j = choose|j: int| 0 <= j < properties.len() && properties[j] == node.items()[k];
        assert(properties[j].part_text(1) == Some(name));
        lemma_own_lines(properties, properties.len(), (name, value));
        crate::sequences::either_holds(a + b + c, d, (name, value));
    }
    if node.first_text("lib_id"@) == Some(value) {
        let line = ("Library"@, value);
        assert(a[0] == line);
        crate::sequences::either_holds(a + b + c, d, line);
        crate::sequences::either_holds(a + b, c, line);
        crate::sequences::either_holds(a, b, line);
    }
    if node.part_text(1) == Some(value) && crate::scene::is_worded(node) {
        let line = ("Text"@, value);
        assert(b[0] == line);
        crate::sequences::either_holds(a + b + c, d, line);
        crate::sequences::either_holds(a + b, c, line);
        crate::sequences::either_holds(a, b, line);
    }
}

/// The words of what belongs to a document and is not on its page.
pub open spec fn is_apart(kind: Seq<char>) -> bool {
    seq![
        "version"@,
        "generator"@,
        "generator_version"@,
        "uuid"@,
        "paper"@,
        "title_block"@,
        "lib_symbols"@,
        "bus_alias"@,
        "sheet_instances"@,
        "symbol_instances"@,
        "embedded_fonts"@,
    ].contains(kind)
}

/// The word begins an item that is drawn in one of the classes.
pub open spec fn is_shown(kind: Seq<char>) -> bool {
    ||| exists|item: crate::document_drawing::Item| #[trigger]
        crate::showing::is_class(kind, item)
    ||| kind == "junction"@
    ||| kind == "symbol"@
    ||| kind == "sheet"@
}

proof fn lemma_shown(kind: Seq<char>)
    ensures
        crate::scene::is_unsupported(kind) <==> !is_shown(kind) && !is_apart(kind),
{
    lemma_classes(kind);
    let apart = seq![
        "version"@,
        "generator"@,
        "generator_version"@,
        "uuid"@,
        "paper"@,
        "title_block"@,
        "lib_symbols"@,
        "bus_alias"@,
        "sheet_instances"@,
        "symbol_instances"@,
        "embedded_fonts"@,
    ];
    assert(apart[0] == "version"@);
    assert(apart[1] == "generator"@);
    assert(apart[2] == "generator_version"@);
    assert(apart[3] == "uuid"@);
    assert(apart[4] == "paper"@);
    assert(apart[5] == "title_block"@);
    assert(apart[6] == "lib_symbols"@);
    assert(apart[7] == "bus_alias"@);
    assert(apart[8] == "sheet_instances"@);
    assert(apart[9] == "symbol_instances"@);
    assert(apart[10] == "embedded_fonts"@);
    if apart.contains(kind) {
        let i = choose|i: int| 0 <= i < apart.len() && apart[i] == kind;
        assert(crate::scene::is_non_visual(kind));
    }
    if crate::scene::is_non_visual(kind) {
        assert(apart.contains(kind));
    }
}

proof fn lemma_classes(kind: Seq<char>)
    ensures
        crate::scene::is_rendered(kind) <==> is_shown(kind),
{
    if crate::scene::is_rendered(kind) && kind != "junction"@ && kind != "symbol"@ && kind
        != "sheet"@ {
        let item = if kind == "bus"@ {
            crate::document_drawing::Item::Bus
        } else if kind == "bus_entry"@ {
            crate::document_drawing::Item::BusEntry
        } else if kind == "global_label"@ || kind == "hierarchical_label"@ {
            crate::document_drawing::Item::FramedLabel
        } else if kind == "label"@ {
            crate::document_drawing::Item::Label
        } else if kind == "no_connect"@ {
            crate::document_drawing::Item::NoConnect
        } else if kind == "text"@ {
            crate::document_drawing::Item::Text
        } else {
            crate::document_drawing::Item::Wire
        };
        assert(crate::showing::is_class(kind, item));
    }
}

proof fn lemma_heads(items: Seq<crate::sexp::Sexp>, kind: Seq<char>, n: nat)
    requires
        1 <= n <= items.len(),
    ensures
        crate::scene::heads_upto(items, kind, n) == items.take(n as int).skip(1).filter(
            |part: crate::sexp::Sexp| part.part_text(0) == Some(kind),
        ).len(),
    decreases n,
{
    let begins = |part: crate::sexp::Sexp| part.part_text(0) == Some(kind);
    reveal(Seq::filter);
    if n > 1 {
        lemma_heads(items, kind, (n - 1) as nat);
        let s = items.take(n as int).skip(1);
        assert(s.drop_last() =~= items.take(n - 1).skip(1));
        assert(s.last() == items[n - 1]);
    } else {
        assert(items.take(1).skip(1) =~= Seq::empty());
    }
}

/// A kind of item is reported as not drawn exactly if there is one of it in the document that is
/// neither drawn nor apart from the page, and the report says how many there are.
pub proof fn what_is_not_drawn_is_reported(
    constructs: Seq<UnsupportedConstruct>,
    items: Seq<crate::sexp::Sexp>,
    kind: Seq<char>,
)
    requires
        crate::scene::covers(constructs, items, items.len()),
        items.len() > 0,
    ensures
        (exists|k: int|
            0 <= k < constructs.len() && (#[trigger] constructs[k]).kind@ == kind
                && constructs[k].count == items.skip(1).filter(
                |part: crate::sexp::Sexp| part.part_text(0) == Some(kind),
            ).len()) <==> !is_shown(kind) && !is_apart(kind) && items.skip(1).filter(
            |part: crate::sexp::Sexp| part.part_text(0) == Some(kind),
        ).len() > 0,
{
    lemma_shown(kind);
    lemma_heads(items, kind, items.len());
    assert(items.take(items.len() as int) =~= items);
    let kinds = crate::scene::kinds(constructs);
    if !is_shown(kind) && !is_apart(kind) && crate::scene::heads_upto(items, kind, items.len())
        > 0 {
        assert(kinds.contains(kind));
        let k = choose|k: int| 0 <= k < kinds.len() && kinds[k] == kind;
        assert(constructs[k].kind@ == kind);
    }
}

/// A point lies in a box, or no further out than the tolerance.
pub open spec fn is_at(
    b: Bounds,
    p: Point,
    tolerance: crate::double::Double,
) -> bool {
    &&& !p.x.spec_less(b.min_x.spec_difference(tolerance))
    &&& !p.y.spec_less(b.min_y.spec_difference(tolerance))
    &&& !b.max_x.spec_sum(tolerance).spec_less(p.x)
    &&& !b.max_y.spec_sum(tolerance).spec_less(p.y)
}

proof fn lemma_hit(things: Seq<Thing>, p: Point, tolerance: crate::double::Double, n: nat)
    requires
        n <= things.len(),
    ensures
        match SchematicScene::hit(things, p, tolerance, n) {
            Some(i) => 0 <= i < n && is_at(things[i].bounds, p, tolerance) && forall|j: int|
                i < j < n ==> !is_at((#[trigger] things[j]).bounds, p, tolerance),
            None => forall|j: int|
                0 <= j < n ==> !is_at((#[trigger] things[j]).bounds, p, tolerance),
        },
    decreases n,
{
    if n > 0 {
        lemma_hit(things, p, tolerance, (n - 1) as nat);
    }
}

/// A click takes the object that was drawn last of those at the point, and none exactly if there is
/// none there.
pub proof fn clicks_take_what_is_on_top(
    things: Seq<Thing>,
    p: Point,
    tolerance: crate::double::Double,
)
    ensures
        match SchematicScene::hit(things, p, tolerance, things.len()) {
            Some(i) => 0 <= i < things.len() && is_at(things[i].bounds, p, tolerance) && forall|
                j: int,
            |
                i < j < things.len() ==> !is_at((#[trigger] things[j]).bounds, p, tolerance),
            None => forall|j: int|
                0 <= j < things.len() ==> !is_at((#[trigger] things[j]).bounds, p, tolerance),
        },
{
    lemma_hit(things, p, tolerance, things.len());
}

/// A number lies between two others, whichever of them is the smaller.
pub open spec fn lies_between(
    d: crate::double::Double,
    a: crate::double::Double,
    b: crate::double::Double,
) -> bool {
    ||| !d.spec_less(a) && !b.spec_less(d)
    ||| !d.spec_less(b) && !a.spec_less(d)
}

proof fn lemma_boxed(
    objects: Seq<SceneObject>,
    start: Point,
    end: Point,
    n: nat,
    uuid: Seq<char>,
)
    requires
        n <= objects.len(),
    ensures
        crate::selection::boxed(objects, start, end, n, uuid) <==> exists|i: int|
            0 <= i < n && (#[trigger] objects[i]).uuid@ == uuid && crate::selection::box_takes(
                objects[i],
                start,
                end,
            ),
    decreases n,
{
    if n > 0 {
        lemma_boxed(objects, start, end, (n - 1) as nat, uuid);
        if crate::selection::boxed(objects, start, end, (n - 1) as nat, uuid) {
            let i = choose|i: int|
                0 <= i < n - 1 && (#[trigger] objects[i]).uuid@ == uuid
                    && crate::selection::box_takes(objects[i], start, end);
            assert(objects[i].uuid@ == uuid);
        }
    }
}

/// A box that is drawn to the right takes the objects that lie in it as a whole: all their corners
/// lie between its own. One that is drawn to the left takes those that it meets: none of its sides
/// lies beyond the other one of theirs.
pub proof fn boxes_take_by_their_direction(
    objects: Seq<SceneObject>,
    start: Point,
    end: Point,
    uuid: Seq<char>,
)
    requires
        start.wf(),
        end.wf(),
        forall|i: int| 0 <= i < objects.len() ==> (#[trigger] objects[i]).wf(),
        forall|i: int|
            0 <= i < objects.len() ==> {
                let b = (#[trigger] objects[i]).bounds;
                !b.max_x.spec_less(b.min_x) && !b.max_y.spec_less(b.min_y)
            },
    ensures
        !end.x.spec_less(start.x) ==> (crate::selection::boxed(
            objects,
            start,
            end,
            objects.len(),
            uuid,
        ) <==> exists|i: int|
            0 <= i < objects.len() && (#[trigger] objects[i]).uuid@ == uuid && {
                let b = objects[i].bounds;
                &&& lies_between(b.min_x, start.x, end.x) && lies_between(b.max_x, start.x, end.x)
                &&& lies_between(b.min_y, start.y, end.y) && lies_between(b.max_y, start.y, end.y)
            }),
        end.x.spec_less(start.x) ==> (crate::selection::boxed(
            objects,
            start,
            end,
            objects.len(),
            uuid,
        ) <==> exists|i: int|
            0 <= i < objects.len() && (#[trigger] objects[i]).uuid@ == uuid && {
                let b = objects[i].bounds;
                &&& !start.x.spec_less(b.min_x) && !b.max_x.spec_less(end.x)
                &&& !(start.y.spec_less(b.min_y) && end.y.spec_less(b.min_y))
                &&& !(b.max_y.spec_less(start.y) && b.max_y.spec_less(end.y))
            }),
{
    lemma_boxed(objects, start, end, objects.len(), uuid);
    assert forall|i: int| 0 <= i < objects.len() && !end.x.spec_less(start.x) implies (
    crate::selection::box_takes(#[trigger] objects[i], start, end) <==> {
        let b = objects[i].bounds;
        &&& lies_between(b.min_x, start.x, end.x) && lies_between(b.max_x, start.x, end.x)
        &&& lies_between(b.min_y, start.y, end.y) && lies_between(b.max_y, start.y, end.y)
    }) by {
        let b = objects[i].bounds;
        assert(objects[i].wf());
        lemma_between(b.min_x, b.max_x, start.x, end.x);
        lemma_between(b.min_y, b.max_y, start.y, end.y);
    }
    assert forall|i: int| 0 <= i < objects.len() && end.x.spec_less(start.x) implies (
    crate::selection::box_takes(#[trigger] objects[i], start, end) <==> {
        let b = objects[i].bounds;
        &&& !start.x.spec_less(b.min_x) && !b.max_x.spec_less(end.x)
        &&& !(start.y.spec_less(b.min_y) && end.y.spec_less(b.min_y))
        &&& !(b.max_y.spec_less(start.y) && b.max_y.spec_less(end.y))
    }) by {
        let b = objects[i].bounds;
        assert(objects[i].wf());
        lemma_between(b.min_x, b.max_x, start.x, end.x);
        lemma_between(b.min_y, b.max_y, start.y, end.y);
    }
}

proof fn lemma_between(
    low: crate::double::Double,
    high: crate::double::Double,
    a: crate::double::Double,
    b: crate::double::Double,
)
    requires
        low.wf(),
        high.wf(),
        a.wf(),
        b.wf(),
        !high.spec_less(low),
    ensures
        ({
            let least = crate::geometry::spec_lesser(a, b);
            let most = crate::geometry::spec_greater(a, b);
            &&& (!low.spec_less(least) && !most.spec_less(high)) <==> lies_between(low, a, b)
                && lies_between(high, a, b)
            &&& most.spec_less(low) <==> a.spec_less(low) && b.spec_less(low)
            &&& high.spec_less(least) <==> high.spec_less(a) && high.spec_less(b)
            &&& b.spec_less(a) ==> least == b && most == a
        }),
{
    crate::double::less_is_total(low, a, b);
    crate::double::less_is_total(low, b, a);
    crate::double::less_is_total(high, a, b);
    crate::double::less_is_total(high, b, a);
    crate::double::less_is_total(a, b, low);
    crate::double::less_is_total(b, a, low);
    crate::double::less_is_total(a, b, high);
    crate::double::less_is_total(b, a, high);
    crate::double::less_is_total(high, low, a);
    crate::double::less_is_total(high, low, b);
    crate::double::less_is_total(a, high, low);
    crate::double::less_is_total(b, high, low);
    crate::double::less_is_total(low, high, a);
    crate::double::less_is_total(low, high, b);
    crate::double::less_is_total(a, low, high);
    crate::double::less_is_total(b, low, high);
    crate::double::less_is_total(low, a, high);
    crate::double::less_is_total(low, b, high);
    crate::double::less_is_total(high, a, low);
    crate::double::less_is_total(high, b, low);
    crate::double::less_is_total(a, b, a);
    crate::double::less_is_total(b, a, b);
}

/// A symbol can be turned and mirrored, a bus entry can be turned, and nothing else can.
pub proof fn symbols_and_bus_entries_are_turned(
    objects: Seq<SceneObject>,
    uuid: Seq<char>,
    t: crate::edit_control::Transform,
)
    ensures
        crate::selection::some_transforms(objects, uuid, t) <==> exists|i: int|
            0 <= i < objects.len() && (#[trigger] objects[i]).uuid@ == uuid && (objects[i].kind
                == crate::scene::ObjectKind::Symbol || (objects[i].kind
                == crate::scene::ObjectKind::BusEntry && t
                == crate::edit_control::Transform::Rotate)),
{
}

/// A pin goes to the side of a sheet that is nearest: no other is nearer.
pub proof fn pins_go_to_the_nearest_side(rect: SheetRect, p: Point, side: Side)
    requires
        forall|s: Side| (#[trigger] crate::sheet_facts::distance_to(rect, p, s)).wf(),
    ensures
        !crate::sheet_facts::distance_to(rect, p, side).spec_less(
            crate::sheet_facts::distance_to(rect, p, crate::sheet_facts::nearest_side(rect, p)),
        ),
{
    let d = |s: Side| crate::sheet_facts::distance_to(rect, p, s);
    let a = crate::sheet_facts::nearer(rect, p, Side::Right, Side::Left);
    let b = crate::sheet_facts::nearer(rect, p, a, Side::Top);
    let c = crate::sheet_facts::nearer(rect, p, b, Side::Bottom);
    crate::double::less_is_total(d(Side::Right), d(Side::Left), d(a));
    crate::double::less_is_total(d(Side::Left), d(Side::Right), d(a));
    crate::double::less_is_total(d(a), d(Side::Top), d(b));
    crate::double::less_is_total(d(Side::Top), d(a), d(b));
    crate::double::less_is_total(d(b), d(Side::Bottom), d(c));
    crate::double::less_is_total(d(Side::Bottom), d(b), d(c));
    crate::double::less_is_total(d(Side::Right), d(a), d(b));
    crate::double::less_is_total(d(Side::Left), d(a), d(b));
    crate::double::less_is_total(d(Side::Right), d(b), d(c));
    crate::double::less_is_total(d(Side::Left), d(b), d(c));
    crate::double::less_is_total(d(Side::Top), d(b), d(c));
    crate::double::less_is_total(d(c), d(c), d(c));
    crate::double::less_is_total(d(Side::Right), d(Side::Right), d(Side::Right));
    crate::double::less_is_total(d(Side::Left), d(Side::Left), d(Side::Left));
    crate::double::less_is_total(d(Side::Top), d(Side::Top), d(Side::Top));
    crate::double::less_is_total(d(Side::Bottom), d(Side::Bottom), d(Side::Bottom));
}

proof fn lemma_page_upto(paths: Seq<crate::sexp::Sexp>, most: nat, n: nat)
    requires
        n <= paths.len(),
    ensures
        most <= crate::sheet_facts::page_upto(paths, most, n),
        forall|k: int|
            0 <= k < n ==> (crate::sheet_facts::page_of(#[trigger] paths[k]) matches Some(page)
                ==> page <= crate::sheet_facts::page_upto(paths, most, n)),
    decreases n,
{
    if n > 0 {
        lemma_page_upto(paths, most, (n - 1) as nat);
    }
}

proof fn lemma_project_pages(projects: Seq<crate::sexp::Sexp>, most: nat, n: nat, j: int, k: int)
    requires
        n <= projects.len(),
    ensures
        most <= crate::sheet_facts::project_page_upto(projects, most, n),
        0 <= j < n && 0 <= k < projects[j].tagged("path"@).len() ==> (
        crate::sheet_facts::page_of(projects[j].tagged("path"@)[k]) matches Some(page) ==> page
            <= crate::sheet_facts::project_page_upto(projects, most, n)),
    decreases n,
{
    if n > 0 {
        lemma_project_pages(projects, most, (n - 1) as nat, j, k);
        let paths = projects[n - 1].tagged("path"@);
        let before = crate::sheet_facts::project_page_upto(projects, most, (n - 1) as nat);
        lemma_page_upto(paths, before, paths.len());
    }
}

proof fn lemma_sheet_pages(sheets: Seq<crate::sexp::Sexp>, n: nat, i: int, j: int, k: int)
    requires
        n <= sheets.len(),
    ensures
        1 <= crate::sheet_facts::sheet_page_upto(sheets, n),
        0 <= i < n ==> (sheets[i].first("instances"@) matches Some(instances) ==> (0 <= j
            < instances.tagged("project"@).len() && 0 <= k < instances.tagged(
            "project"@,
        )[j].tagged("path"@).len() ==> (crate::sheet_facts::page_of(
            instances.tagged("project"@)[j].tagged("path"@)[k],
        ) matches Some(page) ==> page <= crate::sheet_facts::sheet_page_upto(sheets, n)))),
    decreases n,
{
    if n > 0 {
        lemma_sheet_pages(sheets, (n - 1) as nat, i, j, k);
        if let Some(instances) = sheets[n - 1].first("instances"@) {
            let projects = instances.tagged("project"@);
            let before = crate::sheet_facts::sheet_page_upto(sheets, (n - 1) as nat);
            lemma_project_pages(projects, before, projects.len(), j, k);
        }
    }
}

/// No sheet of a schematic has a page behind the last, so that a new sheet is on a page of its own.
pub proof fn new_pages_are_not_in_use(
    root: crate::sexp::Sexp,
    i: int,
    instances: crate::sexp::Sexp,
    j: int,
    k: int,
    page: nat,
)
    requires
        0 <= i < root.tagged("sheet"@).len(),
        root.tagged("sheet"@)[i].first("instances"@) == Some(instances),
        0 <= j < instances.tagged("project"@).len(),
        0 <= k < instances.tagged("project"@)[j].tagged("path"@).len(),
        instances.tagged("project"@)[j].tagged("path"@)[k].first_text("page"@) matches Some(text)
            && crate::attachment::unsigned(text) == Some(page),
    ensures
        page < crate::sheet_facts::last_page(root) + 1,
        1 < crate::sheet_facts::last_page(root) + 1,
{
    let sheets = root.tagged("sheet"@);
    lemma_sheet_pages(sheets, sheets.len(), i, j, k);
}

/// Each kind of object has a name of its own.
pub proof fn kinds_have_names_of_their_own(a: ObjectKind, b: ObjectKind)
    ensures
        crate::selection::kind_text(a) == crate::selection::kind_text(b) ==> a == b,
{
    reveal_strlit("Bus");
    reveal_strlit("BusEntry");
    reveal_strlit("Junction");
    reveal_strlit("Label");
    reveal_strlit("NoConnect");
    reveal_strlit("Sheet");
    reveal_strlit("Symbol");
    reveal_strlit("Text");
    reveal_strlit("Wire");
    assert("Bus"@.len() == 3 && "BusEntry"@.len() == 8 && "Junction"@.len() == 8);
    assert("Label"@.len() == 5 && "NoConnect"@.len() == 9 && "Sheet"@.len() == 5);
    assert("Symbol"@.len() == 6 && "Text"@.len() == 4 && "Wire"@.len() == 4);
    assert("BusEntry"@[0] == 'B' && "Junction"@[0] == 'J');
    assert("Label"@[0] == 'L' && "Sheet"@[0] == 'S');
    assert("Text"@[0] == 'T' && "Wire"@[0] == 'W');
}

} // verus!
