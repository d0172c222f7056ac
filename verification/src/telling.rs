//! What is told in words: the title block of a page, the fields of symbols and sheets, texts that are
//! selected, and what dialogs and summaries speak of.

use crate::double::Double;
use crate::editor_model::ItemChange;
use crate::editor_model::ItemText;
use crate::geometry::Bounds;
use crate::plane::Query;
use crate::plane::Reply;
use crate::primitives::Shape;
use crate::scene::ColorRole;
use crate::scene::ObjectProperty;
use crate::scene_builder::SceneObject;
use crate::sheet_commit::ChildChange;
use crate::sheet_commit::ParentChange;
use crate::text_select::SelectableText;
use crate::text_select::TextDrag;
use vstd::prelude::*;

verus! {

/// A page is higher than it is wide exactly if its paper stands upright, and turning the paper
/// exchanges the two.
pub proof fn upright_pages_are_higher_than_wide(root: crate::sexp::Sexp)
    ensures
        ({
            let (width, height) = crate::readers::page_mils(root);
            let upright = root.first("paper"@) matches Some(node) && node.part_text(2) == Some(
                "portrait"@,
            );
            &&& upright <==> width < height
            &&& !upright <==> height < width
        }),
{
}

/// Two pages of the same paper have the same sides, whichever way the paper lies.
pub proof fn turned_pages_have_the_same_sides(a: crate::sexp::Sexp, b: crate::sexp::Sexp)
    requires
        a.first_text("paper"@) == b.first_text("paper"@),
    ensures
        ({
            let (aw, ah) = crate::readers::page_mils(a);
            let (bw, bh) = crate::readers::page_mils(b);
            (aw, ah) == (bw, bh) || (aw, ah) == (bh, bw)
        }),
{
}

proof fn lemma_title(
    right: Double,
    bottom: Double,
    root: crate::sexp::Sexp,
    file_name: Option<Seq<char>>,
    k: int,
    text: Seq<char>,
)
    requires
        0 <= k < 13,
        crate::worksheet::title_texts(right, bottom, root, file_name)[k] matches Shape::Text(words)
            && words.text == text && words.role == ColorRole::Border,
    ensures
        crate::showing::holds_text(
            crate::worksheet::title_texts(right, bottom, root, file_name),
            text,
            ColorRole::Border,
        ),
{
    let all = crate::worksheet::title_texts(right, bottom, root, file_name);
    assert(crate::showing::is_text(all[k], text, ColorRole::Border));
}

proof fn lemma_on_page(root: crate::sexp::Sexp, file_name: Option<Seq<char>>, text: Seq<char>)
    requires
        ({
            let (width, height) = crate::worksheet::page_mm(root);
            let ten = crate::double::nearest(10, 0);
            crate::showing::holds_text(
                crate::worksheet::title_texts(
                    width.spec_difference(ten),
                    height.spec_difference(ten),
                    root,
                    file_name,
                ),
                text,
                ColorRole::Border,
            )
        }),
    ensures
        crate::showing::holds_text(
            crate::worksheet::page(root, file_name),
            text,
            ColorRole::Border,
        ),
{
    let (width, height) = crate::worksheet::page_mm(root);
    let ten = crate::double::nearest(10, 0);
    let texts = crate::worksheet::title_texts(
        width.spec_difference(ten),
        height.spec_difference(ten),
        root,
        file_name,
    );
    let k = choose|k: int|
        0 <= k < texts.len() && crate::showing::is_text(
            #[trigger] texts[k],
            text,
            ColorRole::Border,
        );
    let sheet = crate::worksheet::worksheet(width, height, root, file_name);
    let all = crate::worksheet::page(root, file_name);
    assert(sheet[sheet.len() - texts.len() + k] == texts[k]);
    assert(all[all.len() - texts.len() + k] == texts[k]);
}

/// The title block of a page shows the title, the date, the revision and the company that the
/// schematic gives, its paper, and the name of its file.
pub proof fn title_blocks_show_what_is_given(
    root: crate::sexp::Sexp,
    file_name: Option<Seq<char>>,
    block: crate::sexp::Sexp,
    text: Seq<char>,
)
    ensures
        ({
            let page = crate::worksheet::page(root, file_name);
            &&& root.first("title_block"@) == Some(block) ==> {
                &&& block.first_text("title"@) == Some(text) ==> crate::showing::holds_text(
                    page,
                    "Title: "@ + text,
                    ColorRole::Border,
                )
                &&& block.first_text("date"@) == Some(text) ==> crate::showing::holds_text(
                    page,
                    "Date: "@ + text,
                    ColorRole::Border,
                )
                &&& block.first_text("rev"@) == Some(text) ==> crate::showing::holds_text(
                    page,
                    "Rev: "@ + text,
                    ColorRole::Border,
                )
                &&& block.first_text("company"@) == Some(text) ==> crate::showing::holds_text(
                    page,
                    text,
                    ColorRole::Border,
                )
            }
            &&& root.first_text("paper"@) == Some(text) ==> crate::showing::holds_text(
                page,
                "Size: "@ + text,
                ColorRole::Border,
            )
            &&& file_name == Some(text) ==> crate::showing::holds_text(
                page,
                "File: "@ + text,
                ColorRole::Border,
            )
        }),
{
    let (width, height) = crate::worksheet::page_mm(root);
    let ten = crate::double::nearest(10, 0);
    let right = width.spec_difference(ten);
    let bottom = height.spec_difference(ten);
    if root.first("title_block"@) == Some(block) {
        if block.first_text("title"@) == Some(text) {
            lemma_title(right, bottom, root, file_name, 5, "Title: "@ + text);
            lemma_on_page(root, file_name, "Title: "@ + text);
        }
        if block.first_text("date"@) == Some(text) {
            lemma_title(right, bottom, root, file_name, 0, "Date: "@ + text);
            lemma_on_page(root, file_name, "Date: "@ + text);
        }
        if block.first_text("rev"@) == Some(text) {
            lemma_title(right, bottom, root, file_name, 2, "Rev: "@ + text);
            lemma_on_page(root, file_name, "Rev: "@ + text);
        }
        if block.first_text("company"@) == Some(text) {
            lemma_title(right, bottom, root, file_name, 8, text);
            lemma_on_page(root, file_name, text);
        }
    }
    if root.first_text("paper"@) == Some(text) {
        lemma_title(right, bottom, root, file_name, 3, "Size: "@ + text);
        lemma_on_page(root, file_name, "Size: "@ + text);
    }
    if file_name == Some(text) {
        lemma_title(right, bottom, root, file_name, 6, "File: "@ + text);
        lemma_on_page(root, file_name, "File: "@ + text);
    }
}

proof fn lemma_comment(comments: Seq<crate::sexp::Sexp>, number: int, from: nat, k: int)
    requires
        from <= k < comments.len(),
        comments[k].part_number(1) == Some(crate::double::nearest(number, 0)),
        forall|j: int|
            0 <= j < k ==> (#[trigger] comments[j]).part_number(1) != Some(
                crate::double::nearest(number, 0),
            ),
    ensures
        comments[k].part_text(2) matches Some(text) ==> crate::worksheet::comment_from(
            comments,
            number,
            from,
        ) == text,
    decreases k - from,
{
    if from < k {
        assert(comments[from as int].part_number(1) != Some(crate::double::nearest(number, 0)));
        lemma_comment(comments, number, from + 1, k);
    }
}

/// The four comments of a title block are shown, each by its number.
pub proof fn title_blocks_show_four_comments(
    root: crate::sexp::Sexp,
    file_name: Option<Seq<char>>,
    block: crate::sexp::Sexp,
    number: int,
    k: int,
    text: Seq<char>,
)
    requires
        root.first("title_block"@) == Some(block),
        1 <= number <= 4,
        0 <= k < block.tagged("comment"@).len(),
        block.tagged("comment"@)[k].part_number(1) == Some(crate::double::nearest(number, 0)),
        block.tagged("comment"@)[k].part_text(2) == Some(text),
        forall|j: int|
            0 <= j < k ==> (#[trigger] block.tagged("comment"@)[j]).part_number(1) != Some(
                crate::double::nearest(number, 0),
            ),
    ensures
        crate::showing::holds_text(
            crate::worksheet::page(root, file_name),
            text,
            ColorRole::Border,
        ),
{
    let (width, height) = crate::worksheet::page_mm(root);
    let ten = crate::double::nearest(10, 0);
    let right = width.spec_difference(ten);
    let bottom = height.spec_difference(ten);
    lemma_comment(block.tagged("comment"@), number, 0, k);
    if number == 1 {
        lemma_title(right, bottom, root, file_name, 9, text);
    } else if number == 2 {
        lemma_title(right, bottom, root, file_name, 10, text);
    } else if number == 3 {
        lemma_title(right, bottom, root, file_name, 11, text);
    } else {
        lemma_title(right, bottom, root, file_name, 12, text);
    }
    lemma_on_page(root, file_name, text);
}

/// A field is hidden exactly if it says so itself or its effects do.
pub proof fn fields_are_hidden_by_word(field: crate::sexp::Sexp)
    ensures
        field.hidden() <==> {
            ||| exists|k: int|
                0 <= k < field.items().len() && (#[trigger] field.items()[k]).part_text(0) == Some(
                    "hide"@,
                )
            ||| field.first("effects"@) matches Some(effects) && exists|k: int|
                0 <= k < effects.items().len() && (#[trigger] effects.items()[k]).part_text(0)
                    == Some("hide"@)
        },
{
    crate::sexp::first_part_comes_first(field, "hide"@);
    if let Some(effects) = field.first("effects"@) {
        crate::sexp::first_part_comes_first(effects, "hide"@);
    }
}

proof fn lemma_symbol_fields<F: Fn(Query) -> Reply>(
    f: F,
    fields: Seq<crate::sexp::Sexp>,
    n: nat,
    k: int,
    text: Seq<char>,
)
    requires
        0 <= k < n <= fields.len(),
        !fields[k].hidden(),
        fields[k].part_text(2) == Some(text),
        crate::text_box::field_position(f, fields[k]) is Some,
    ensures
        crate::showing::holds_text(
            crate::symbol_drawing::symbol_fields(f, fields, n),
            text,
            ColorRole::Text,
        ),
    decreases n,
{
    let before = crate::symbol_drawing::symbol_fields(f, fields, (n - 1) as nat);
    let all = crate::symbol_drawing::symbol_fields(f, fields, n);
    if k < n - 1 {
        lemma_symbol_fields(f, fields, (n - 1) as nat, k, text);
        let m = choose|m: int|
            0 <= m < before.len() && crate::showing::is_text(
                #[trigger] before[m],
                text,
                ColorRole::Text,
            );
        assert(all[m] == before[m]);
    } else {
        assert(crate::showing::is_text(all[before.len() as int], text, ColorRole::Text));
    }
}

/// Every field of a symbol that is not hidden is drawn with its value.
pub proof fn fields_of_symbols_are_drawn<F: Fn(Query) -> Reply>(
    picture: crate::scene_builder::Picture,
    f: F,
    node: crate::sexp::Sexp,
    libraries: Seq<crate::sexp::Sexp>,
    k: int,
    text: Seq<char>,
)
    requires
        node.first_text("lib_id"@) is Some,
        node.at_point() is Some,
        0 <= k < node.items().len(),
        node.items()[k].part_text(0) == Some("property"@),
        node.items()[k].part_text(2) == Some(text),
        !node.items()[k].hidden(),
        crate::text_box::field_position(f, node.items()[k]) is Some,
    ensures
        crate::showing::holds_text(
            picture.symbol(f, node, libraries).shapes,
            text,
            ColorRole::Text,
        ),
{
    let fields = node.properties();
    crate::sexp::tagged_parts_are_found(node, "property"@, k);
    let j = choose|j: int| 0 <= j < fields.len() && fields[j] == node.items()[k];
    lemma_symbol_fields(f, fields, fields.len(), j, text);
    let texts = crate::symbol_drawing::symbol_fields(f, fields, fields.len());
    let all = picture.symbol(f, node, libraries).shapes;
    let m = choose|m: int|
        0 <= m < texts.len() && crate::showing::is_text(
            #[trigger] texts[m],
            text,
            ColorRole::Text,
        );
    assert(all[all.len() - texts.len() + m] == texts[m]);
}

proof fn lemma_symbol_label(
    fields: Seq<crate::sexp::Sexp>,
    library: Seq<char>,
    n: nat,
    k: int,
)
    requires
        0 <= k < n <= fields.len(),
        is_reference(fields[k]),
        forall|j: int| k < j < n ==> !is_reference(#[trigger] fields[j]),
    ensures
        Some(crate::symbol_drawing::symbol_label(fields, library, n)) == fields[k].part_text(2),
    decreases n,
{
    lemma_no_name();
    if k < n - 1 {
        assert(!is_reference(fields[n - 1]));
        lemma_symbol_label(fields, library, (n - 1) as nat, k);
    }
}

proof fn lemma_no_name()
    ensures
        ""@ != "Reference"@,
        ""@.len() == 0,
{
    reveal_strlit("");
    reveal_strlit("Reference");
    assert(""@.len() == 0 && "Reference"@.len() == 9);
}

/// A property gives a reference that is not empty.
pub open spec fn is_reference(field: crate::sexp::Sexp) -> bool {
    &&& field.part_text(1) == Some("Reference"@)
    &&& field.part_text(2) matches Some(text) && text.len() > 0
}

/// A symbol is called by its reference, the last one that it gives, and by its definition where it
/// gives none.
pub proof fn symbols_are_called_by_their_reference(
    fields: Seq<crate::sexp::Sexp>,
    library: Seq<char>,
)
    ensures
        (forall|j: int| 0 <= j < fields.len() ==> !is_reference(#[trigger] fields[j]))
            ==> crate::symbol_drawing::symbol_label(fields, library, fields.len()) == library,
        forall|k: int|
            0 <= k < fields.len() && is_reference(#[trigger] fields[k]) && (forall|j: int|
                k < j < fields.len() ==> !is_reference(#[trigger] fields[j])) ==> Some(
                crate::symbol_drawing::symbol_label(fields, library, fields.len()),
            ) == fields[k].part_text(2),
{
    if forall|j: int| 0 <= j < fields.len() ==> !is_reference(#[trigger] fields[j]) {
        lemma_library_label(fields, library, fields.len());
    }
    assert forall|k: int|
        0 <= k < fields.len() && is_reference(#[trigger] fields[k]) && (forall|j: int|
            k < j < fields.len() ==> !is_reference(#[trigger] fields[j])) implies Some(
        crate::symbol_drawing::symbol_label(fields, library, fields.len()),
    ) == fields[k].part_text(2) by {
        lemma_symbol_label(fields, library, fields.len(), k);
    }
}

proof fn lemma_library_label(fields: Seq<crate::sexp::Sexp>, library: Seq<char>, n: nat)
    requires
        n <= fields.len(),
        forall|j: int| 0 <= j < fields.len() ==> !is_reference(#[trigger] fields[j]),
    ensures
        crate::symbol_drawing::symbol_label(fields, library, n) == library,
    decreases n,
{
    lemma_no_name();
    if n > 0 {
        assert(!is_reference(fields[n - 1]));
        lemma_library_label(fields, library, (n - 1) as nat);
    }
}

/// The text under a point is the one that was painted last of those that hold it.
pub proof fn the_text_on_top_is_selected(targets: Seq<SelectableText>, x: Double, y: Double, n: nat)
    requires
        n <= targets.len(),
    ensures
        match crate::text_select::target_under(targets, x, y, n) {
            Some(i) => 0 <= i < n && crate::handling::is_inside(targets[i].rect, x, y) && forall|
                j: int,
            |
                i < j < n ==> !crate::handling::is_inside((#[trigger] targets[j]).rect, x, y),
            None => forall|j: int|
                0 <= j < n ==> !crate::handling::is_inside((#[trigger] targets[j]).rect, x, y),
        },
    decreases n,
{
    if n > 0 {
        the_text_on_top_is_selected(targets, x, y, (n - 1) as nat);
    }
}

/// A text that is clicked without a drag is selected as a whole, and so is one that is selected as a
/// whole or not at all; what a drag selects are the characters from where it began to where it ended.
pub proof fn clicked_texts_are_selected_as_a_whole(drag: TextDrag)
    ensures
        ({
            let (from, to) = drag.ends_at();
            let chosen = drag.target.chosen(from, to);
            &&& drag.anchor == drag.current || drag.target.select_whole ==> chosen
                == drag.target.text@
            &&& !drag.target.select_whole && drag.anchor < drag.current
                <= drag.target.text@.len() ==> chosen == drag.target.text@.subrange(
                drag.anchor as int,
                drag.current as int,
            )
            &&& !drag.target.select_whole && drag.current < drag.anchor
                <= drag.target.text@.len() ==> chosen == drag.target.text@.subrange(
                drag.current as int,
                drag.anchor as int,
            )
        }),
{
    let text = drag.target.text@;
    assert(text.subrange(0, text.len() as int) =~= text);
    if text.len() == 0 {
        assert(text =~= Seq::empty());
    }
}

/// A text that was selected is found again as one with the same characters, and none is found where
/// none has them.
pub proof fn selected_texts_are_found_again(
    targets: Seq<SelectableText>,
    text: Seq<char>,
    center: (Double, Double),
    n: nat,
)
    requires
        n <= targets.len(),
    ensures
        match crate::text_select::nearest_target(targets, text, center, n) {
            Some(i) => 0 <= i < n && targets[i].text@ == text,
            None => forall|j: int| 0 <= j < n ==> (#[trigger] targets[j]).text@ != text,
        },
    decreases n,
{
    if n > 0 {
        selected_texts_are_found_again(targets, text, center, (n - 1) as nat);
    }
}

/// An object is named.
pub open spec fn is_named(object: SceneObject, uuids: Seq<Seq<char>>) -> bool {
    uuids.contains(object.uuid@)
}

/// A box lies within another.
pub open spec fn is_within(inner: Bounds, outer: Bounds) -> bool {
    &&& !inner.min_x.spec_less(outer.min_x) && !outer.max_x.spec_less(inner.max_x)
    &&& !inner.min_y.spec_less(outer.min_y) && !outer.max_y.spec_less(inner.max_y)
}

proof fn lemma_round_both(a: Bounds, b: Bounds)
    requires
        a.wf(),
        b.wf(),
    ensures
        crate::screen::round_both(a, b).wf(),
        is_within(a, crate::screen::round_both(a, b)),
        is_within(b, crate::screen::round_both(a, b)),
{
    crate::double::less_is_total(a.min_x, b.min_x, a.min_x);
    crate::double::less_is_total(a.min_y, b.min_y, a.min_y);
    crate::double::less_is_total(a.max_x, b.max_x, a.max_x);
    crate::double::less_is_total(a.max_y, b.max_y, a.max_y);
    crate::double::less_is_total(b.min_x, a.min_x, b.min_x);
    crate::double::less_is_total(b.min_y, a.min_y, b.min_y);
    crate::double::less_is_total(b.max_x, a.max_x, b.max_x);
    crate::double::less_is_total(b.max_y, a.max_y, b.max_y);
}

proof fn lemma_within(a: Bounds, b: Bounds, c: Bounds)
    requires
        a.wf(),
        b.wf(),
        c.wf(),
        is_within(a, b),
        is_within(b, c),
    ensures
        is_within(a, c),
{
    crate::double::less_is_total(a.min_x, b.min_x, c.min_x);
    crate::double::less_is_total(a.min_y, b.min_y, c.min_y);
    crate::double::less_is_total(c.max_x, b.max_x, a.max_x);
    crate::double::less_is_total(c.max_y, b.max_y, a.max_y);
}

/// What a change is shown by holds every object that it names, and there is something to show exactly
/// if it names one that is there.
pub proof fn changes_are_shown_whole(objects: Seq<SceneObject>, uuids: Seq<Seq<char>>, n: nat)
    requires
        n <= objects.len(),
        forall|i: int| 0 <= i < objects.len() ==> (#[trigger] objects[i]).wf(),
    ensures
        match crate::viewer::changed_box(objects, uuids, n) {
            Some(b) => b.wf() && (exists|i: int|
                0 <= i < n && is_named(#[trigger] objects[i], uuids)) && forall|i: int|
                0 <= i < n && is_named(#[trigger] objects[i], uuids) ==> is_within(
                    objects[i].bounds,
                    b,
                ),
            None => forall|i: int| 0 <= i < n ==> !is_named(#[trigger] objects[i], uuids),
        },
    decreases n,
{
    if n > 0 {
        changes_are_shown_whole(objects, uuids, (n - 1) as nat);
        let before = crate::viewer::changed_box(objects, uuids, (n - 1) as nat);
        let object = objects[n - 1];
        assert(object.wf());
        lemma_round_both(object.bounds, object.bounds);
        if let Some(b) = before {
            lemma_round_both(b, object.bounds);
            if is_named(object, uuids) {
                let all = crate::screen::round_both(b, object.bounds);
                assert forall|i: int| 0 <= i < n && is_named(
                    #[trigger] objects[i],
                    uuids,
                ) implies is_within(objects[i].bounds, all) by {
                    assert(objects[i].wf());
                    if i < n - 1 {
                        lemma_within(objects[i].bounds, b, all);
                    }
                }
                assert(is_named(objects[n - 1], uuids));
            } else {
                let i = choose|i: int| 0 <= i < n - 1 && is_named(#[trigger] objects[i], uuids);
                assert(is_named(objects[i], uuids));
            }
        } else if is_named(object, uuids) {
            let own = object.bounds;
            crate::double::less_is_total(own.min_x, own.min_x, own.min_x);
            crate::double::less_is_total(own.min_y, own.min_y, own.min_y);
            crate::double::less_is_total(own.max_x, own.max_x, own.max_x);
            crate::double::less_is_total(own.max_y, own.max_y, own.max_y);
            assert(is_named(objects[n - 1], uuids));
        }
    }
}

/// The parts of the page that a drag takes out are those of the objects that are selected and of the
/// wires that follow, and no others.
pub proof fn drags_take_out_what_moves(
    objects: Seq<SceneObject>,
    selected: Seq<Seq<char>>,
    wires: Seq<Seq<char>>,
    n: nat,
    range: (usize, usize),
)
    requires
        n <= objects.len(),
    ensures
        crate::viewer::ranges_of(objects, selected, wires, n).contains(range) <==> exists|i: int|
            0 <= i < n && (#[trigger] objects[i]).first == range.0 && objects[i].end == range.1 && (
            selected.contains(objects[i].uuid@) || wires.contains(objects[i].uuid@)),
    decreases n,
{
    if n > 0 {
        drags_take_out_what_moves(objects, selected, wires, (n - 1) as nat, range);
        let before = crate::viewer::ranges_of(objects, selected, wires, (n - 1) as nat);
        let object = objects[n - 1];
        crate::sequences::pushed_holds(before, (object.first, object.end), range);
        if before.contains(range) {
            let i = choose|i: int|
                0 <= i < n - 1 && (#[trigger] objects[i]).first == range.0 && objects[i].end
                    == range.1 && (selected.contains(objects[i].uuid@) || wires.contains(
                    objects[i].uuid@,
                ));
            assert(objects[i].first == range.0);
        }
    }
}

proof fn lemma_named_from(properties: Seq<ObjectProperty>, name: Seq<char>, from: nat)
    ensures
        match crate::dialogs::named_from(properties, name, from) {
            Some(i) => from <= i < properties.len() && properties[i].name@ == name && forall|
                j: int,
            |
                from <= j < i ==> (#[trigger] properties[j]).name@ != name,
            None => forall|j: int|
                from <= j < properties.len() ==> (#[trigger] properties[j]).name@ != name,
        },
    decreases properties.len() - from,
{
    if from < properties.len() {
        lemma_named_from(properties, name, from + 1);
    }
}

proof fn lemma_free_from(properties: Seq<ObjectProperty>, from: nat)
    ensures
        match crate::dialogs::free_from(properties, from) {
            Some(i) => from <= i < properties.len() && crate::dialogs::is_free(
                properties[i].name@,
            ) && forall|j: int|
                from <= j < i ==> !crate::dialogs::is_free((#[trigger] properties[j]).name@),
            None => forall|j: int|
                from <= j < properties.len() ==> !crate::dialogs::is_free(
                    (#[trigger] properties[j]).name@,
                ),
        },
    decreases properties.len() - from,
{
    if from < properties.len() {
        lemma_free_from(properties, from + 1);
    }
}

/// The value of an item is edited where it has one, else its first property that is not told of it by
/// the viewer; its definition, its position, its reference and its words are never edited so.
pub proof fn values_are_edited_first(properties: Seq<ObjectProperty>)
    ensures
        match crate::dialogs::primary_property(properties) {
            Some(i) => {
                &&& 0 <= i < properties.len()
                &&& properties[i].name@ != "Library"@ && properties[i].name@ != "Position"@
                &&& properties[i].name@ != "Reference"@ && properties[i].name@ != "Text"@
                &&& (exists|j: int|
                    0 <= j < properties.len() && (#[trigger] properties[j]).name@ == "Value"@)
                    ==> properties[i].name@ == "Value"@
            },
            None => forall|j: int|
                0 <= j < properties.len() ==> {
                    ||| (#[trigger] properties[j]).name@ == "Library"@
                    ||| properties[j].name@ == "Position"@
                    ||| properties[j].name@ == "Reference"@
                    ||| properties[j].name@ == "Text"@
                },
        },
{
    lemma_named_from(properties, "Value"@, 0);
    lemma_free_from(properties, 0);
    reveal_strlit("Value");
    reveal_strlit("Library");
    reveal_strlit("Position");
    reveal_strlit("Reference");
    reveal_strlit("Text");
    assert("Value"@.len() == 5 && "Library"@.len() == 7 && "Position"@.len() == 8);
    assert("Reference"@.len() == 9 && "Text"@.len() == 4);
}

proof fn lemma_named_upto(properties: Seq<ObjectProperty>, name: Seq<char>, n: nat)
    requires
        n <= properties.len(),
    ensures
        crate::sheet_commit::named_upto(properties, name, n) <==> exists|k: int|
            0 <= k < n && (#[trigger] properties[k]).name@ == "Sheetname"@
                && properties[k].value@ == name,
    decreases n,
{
    if n > 0 {
        lemma_named_upto(properties, name, (n - 1) as nat);
        if crate::sheet_commit::named_upto(properties, name, (n - 1) as nat) {
            let k = choose|k: int|
                0 <= k < n - 1 && (#[trigger] properties[k]).name@ == "Sheetname"@
                    && properties[k].value@ == name;
            assert(properties[k].name@ == "Sheetname"@);
        }
    }
}

/// A name is taken exactly if a sheet on the page has it.
pub proof fn names_of_sheets_are_taken_once(objects: Seq<SceneObject>, name: Seq<char>)
    ensures
        crate::sheet_commit::is_taken(objects, name) <==> exists|i: int, k: int|
            0 <= i < objects.len() && (#[trigger] objects[i]).kind
                == crate::scene::ObjectKind::Sheet && 0 <= k < objects[i].properties@.len() && (
            #[trigger] objects[i].properties@[k]).name@ == "Sheetname"@
                && objects[i].properties@[k].value@ == name,
{
    assert forall|i: int| 0 <= i < objects.len() implies crate::sheet_commit::named_upto(
        (#[trigger] objects[i]).properties@,
        name,
        objects[i].properties@.len(),
    ) == (exists|k: int|
        0 <= k < objects[i].properties@.len() && (#[trigger] objects[i].properties@[k]).name@
            == "Sheetname"@ && objects[i].properties@[k].value@ == name) by {
        lemma_named_upto(objects[i].properties@, name, objects[i].properties@.len());
    }
    if crate::sheet_commit::is_taken(objects, name) {
        let i = choose|i: int|
            0 <= i < objects.len() && (#[trigger] objects[i]).kind
                == crate::scene::ObjectKind::Sheet && crate::sheet_commit::named_upto(
                objects[i].properties@,
                name,
                objects[i].properties@.len(),
            );
        let k = choose|k: int|
            0 <= k < objects[i].properties@.len() && (#[trigger] objects[i].properties@[k]).name@
                == "Sheetname"@ && objects[i].properties@[k].value@ == name;
        assert(objects[i].properties@[k].name@ == "Sheetname"@);
    }
}

/// A new sheet is staged with the schematic that it is on: that has its new text, and the file of the
/// sheet the one that it is created with.
pub proof fn new_sheets_are_staged_with_their_schematic<C>(
    staged: Map<Seq<char>, crate::edit_session::Staged>,
    parent: ParentChange<C>,
    child_key: Seq<char>,
    child_file: Seq<char>,
    child: ChildChange<C>,
)
    requires
        crate::sheet_commit::with_sheet(staged, parent, child_key, child_file, child) is Some,
        child_key != parent.key@,
    ensures
        ({
            let after = crate::sheet_commit::with_sheet(
                staged,
                parent,
                child_key,
                child_file,
                child,
            )->Some_0;
            &&& after.contains_key(parent.key@) && after[parent.key@].staged == parent.after@
            &&& child matches ChildChange::Created(source) ==> after.contains_key(child_key)
                && after[child_key].staged == source@ && after[child_key].base is None
                && after[child_key].file == child_file
            &&& child matches ChildChange::Patched(_, text, _, _) ==> after.contains_key(child_key)
                && after[child_key].staged == text@
            &&& child is Linked ==> (after.contains_key(child_key) <==> staged.contains_key(
                child_key,
            ))
        }),
{
}

proof fn lemma_slashes(s: Seq<char>, n: nat)
    requires
        n <= s.len(),
    ensures
        ({
            let k = crate::sheet_commit::slashes_upto(s, n);
            &&& k <= n
            &&& k > 0 ==> s[k - 1] != '/'
            &&& forall|i: int| k <= i < n ==> #[trigger] s[i] == '/'
        }),
    decreases n,
{
    if n > 0 && s[n - 1] == '/' {
        lemma_slashes(s, (n - 1) as nat);
    }
}

/// The path of a schematic loses the slashes that it ends with before a sheet is added to it, and
/// nothing else.
pub proof fn paths_are_joined_by_one_slash(parent: Seq<char>)
    ensures
        ({
            let k = crate::sheet_commit::slashes_upto(parent, parent.len()) as int;
            let kept = parent.take(k);
            &&& k <= parent.len()
            &&& kept.len() > 0 ==> kept.last() != '/'
            &&& forall|i: int| k <= i < parent.len() ==> #[trigger] parent[i] == '/'
        }),
{
    lemma_slashes(parent, parent.len());
}

/// The text of an item is that of the last one with its identifier.
pub open spec fn is_text_of(items: Seq<ItemText>, i: int, uuid: Seq<char>) -> bool {
    &&& 0 <= i < items.len()
    &&& items[i].uuid@ == uuid
    &&& forall|j: int| i < j < items.len() ==> (#[trigger] items[j]).uuid@ != uuid
}

proof fn lemma_text_of(items: Seq<ItemText>, uuid: Seq<char>, n: nat)
    requires
        n <= items.len(),
        forall|j: int| n <= j < items.len() ==> (#[trigger] items[j]).uuid@ != uuid,
    ensures
        match crate::editor_model::text_of(items, uuid, n) {
            Some(text) => exists|i: int| #[trigger]
                is_text_of(items, i, uuid) && items[i].text@ == text,
            None => forall|j: int| 0 <= j < items.len() ==> (#[trigger] items[j]).uuid@ != uuid,
        },
    decreases n,
{
    if n > 0 {
        if items[n - 1].uuid@ == uuid {
            assert(is_text_of(items, n - 1, uuid));
        } else {
            lemma_text_of(items, uuid, (n - 1) as nat);
        }
    }
}

/// An item was added if it is there after and was not before, removed if it was there before and is
/// not after, and modified if its text is another one. Nothing else happened to it.
pub proof fn changes_are_told_apart(
    before: Seq<ItemText>,
    after: Seq<ItemText>,
    uuid: Seq<char>,
)
    ensures
        ({
            let was = exists|i: int| 0 <= i < before.len() && (#[trigger] before[i]).uuid@ == uuid;
            let is_there = exists|i: int|
                0 <= i < after.len() && (#[trigger] after[i]).uuid@ == uuid;
            let change = crate::editor_model::change_of(before, after, uuid);
            &&& change == Some(ItemChange::Added) <==> is_there && !was
            &&& change == Some(ItemChange::Removed) <==> was && !is_there
            &&& change == Some(ItemChange::Modified) <==> exists|i: int, j: int| #[trigger]
                is_text_of(before, i, uuid) && #[trigger] is_text_of(after, j, uuid)
                    && before[i].text@ != after[j].text@
        }),
{
    lemma_text_of(before, uuid, before.len());
    lemma_text_of(after, uuid, after.len());
    assert forall|i: int, j: int| #[trigger]
        is_text_of(before, i, uuid) && #[trigger] is_text_of(before, j, uuid) implies i == j by {
        if i < j {
            assert(before[j].uuid@ != uuid);
        } else if j < i {
            assert(before[i].uuid@ != uuid);
        }
    }
    assert forall|i: int, j: int| #[trigger]
        is_text_of(after, i, uuid) && #[trigger] is_text_of(after, j, uuid) implies i == j by {
        if i < j {
            assert(after[j].uuid@ != uuid);
        } else if j < i {
            assert(after[i].uuid@ != uuid);
        }
    }
}

/// Ages are told in whole seconds below a minute, in whole minutes below an hour, and in whole hours
/// from an hour on. The first seconds are now.
pub proof fn ages_are_told_in_whole_units(count: nat, rest: nat)
    ensures
        count < 5 ==> crate::ui_text::age(count) == "now"@,
        5 <= count < 60 ==> crate::ui_text::age(count) == crate::text::decimal(count) + "s"@,
        1 <= count < 60 && rest < 60 ==> crate::ui_text::age(60 * count + rest)
            == crate::text::decimal(count) + "m"@,
        1 <= count && rest < 3600 ==> crate::ui_text::age(3600 * count + rest)
            == crate::text::decimal(count) + "h"@,
{
    if 1 <= count < 60 && rest < 60 {
        assert((60 * count + rest) / 60 == count);
    }
    if 1 <= count && rest < 3600 {
        assert((3600 * count + rest) / 3600 == count);
    }
}

proof fn lemma_reference(properties: Seq<crate::sexp::Sexp>, name: Seq<char>, from: nat, k: int)
    requires
        from <= k < properties.len(),
        properties[k].part_text(1) == Some(name),
        forall|j: int| from <= j < k ==> (#[trigger] properties[j]).part_text(1) != Some(name),
    ensures
        crate::readers::property_from(properties, name, from) == Some(properties[k]),
    decreases k - from,
{
    if from < k {
        assert(properties[from as int].part_text(1) != Some(name));
        lemma_reference(properties, name, from + 1, k);
    }
}

/// The reference of a symbol is the value of its first property of that name.
pub proof fn references_are_properties(node: crate::sexp::Sexp, k: int)
    requires
        0 <= k < node.properties().len(),
        node.properties()[k].part_text(1) == Some("Reference"@),
        forall|j: int|
            0 <= j < k ==> (#[trigger] node.properties()[j]).part_text(1) != Some("Reference"@),
    ensures
        crate::readers::reference_of(node) == node.properties()[k].part_text(2),
{
    lemma_reference(node.properties(), "Reference"@, 0, k);
}

proof fn lemma_first_underscore(s: Seq<char>, from: nat, k: int)
    requires
        from <= k < s.len(),
        s[k] == '_',
        forall|j: int| from <= j < k ==> #[trigger] s[j] != '_',
    ensures
        crate::ui_text::underscore(s, from) == k,
    decreases k - from,
{
    if from < k {
        assert(s[from as int] != '_');
        lemma_first_underscore(s, from + 1, k);
    }
}

/// A number before the name of a sheet is not shown.
pub proof fn numbers_before_names_are_not_shown(number: Seq<char>, name: Seq<char>)
    requires
        forall|k: int| 0 <= k < number.len() ==> '0' <= #[trigger] number[k] <= '9',
    ensures
        crate::ui_text::without_number(number + seq!['_'] + name) == name,
{
    let whole = number + seq!['_'] + name;
    let n = number.len() as int;
    assert forall|j: int| 0 <= j < n implies #[trigger] whole[j] == number[j] by {}
    assert(whole[n] == '_');
    assert forall|j: int| 0 <= j < n implies #[trigger] whole[j] != '_' by {
        assert('0' <= number[j] <= '9');
    }
    lemma_first_underscore(whole, 0, n);
    assert forall|k: int| 0 <= k < n implies crate::ui_text::is_digit(#[trigger] whole[k]) by {
        assert('0' <= number[k] <= '9');
    }
    assert(whole.skip(n + 1) =~= name);
}

} // verus!
