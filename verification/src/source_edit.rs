//! Edits of a schematic's text that move, rotate, mirror or copy items.
//!
//! An edit names the bytes that it replaces. Everything outside them, unknown fields
//! included, stays as it is.

use crate::double::Double;
use crate::geometry::format_coord;
use crate::sexp::Node;
use crate::text::same;
use vstd::prelude::*;

verus! {

/// A list in the text of a document: its bytes from `start` up to `end`, the white space
/// that its line begins with as far as the line lies in the list around it, what it says, and
/// the lists directly in it. What it says is missing where its text cannot be read.
pub struct Block {
    pub start: usize,
    pub end: usize,
    pub indent: String,
    pub node: Option<Node>,
    pub children: Vec<Block>,
}

/// A replacement of the bytes from `start` up to `end`.
pub struct Edit {
    pub start: usize,
    pub end: usize,
    pub replacement: String,
}

/// An edit as a value.
pub ghost struct EditModel {
    pub start: nat,
    pub end: nat,
    pub replacement: Seq<char>,
}

/// Why an edit cannot be made.
#[derive(Clone, Copy, PartialEq, Eq, Structural, Debug)]
pub enum EditError {
    /// No item of the right kind has the identifier.
    NotFound,
    /// The item has no position.
    NoPosition,
    /// The item holds no coordinates.
    NoCoordinates,
    /// A part of the item cannot be read.
    Unreadable,
    /// A position lacks its first coordinate.
    MissingX,
    /// A position lacks its second coordinate.
    MissingY,
    /// A position does not begin with a word.
    NoItemType,
    /// A list stands where a position holds plain values.
    NotScalar,
    /// A wire does not have two ends.
    NotTwoEnds,
    /// A bus entry has no size.
    NoSize,
    /// Items of this kind cannot be rotated.
    NotRotatable,
    /// The axis is neither `x` nor `y`.
    BadAxis,
    /// The reference property has no quoted value.
    NoReferenceValue,
}

impl Edit {
    pub open spec fn model(self) -> EditModel {
        EditModel {
            start: self.start as nat,
            end: self.end as nat,
            replacement: self.replacement@,
        }
    }
}

pub open spec fn edit_models(edits: Seq<Edit>) -> Seq<EditModel> {
    edits.map_values(|e: Edit| e.model())
}

/// The outcome of planning edits, as a value.
pub open spec fn plan(r: Result<Vec<Edit>, EditError>) -> Result<Seq<EditModel>, EditError> {
    match r {
        Ok(edits) => Ok(edit_models(edits@)),
        Err(error) => Err(error),
    }
}

impl Block {
    /// The numbers are well formed, and each block lies within the one that it is in.
    pub open spec fn wf(self) -> bool
        decreases self,
    {
        &&& self.node matches Some(node) ==> node.wf()
        &&& self.start <= self.end
        &&& forall|i: int|
            0 <= i < self.children@.len() ==> (#[trigger] self.children@[i]).wf() && self.start
                <= self.children@[i].start && self.children@[i].end <= self.end
    }

    /// The block begins with this word.
    pub open spec fn spec_is_a(self, tag: Seq<char>) -> bool {
        self.node matches Some(node) && node@.is_a(tag)
    }

    /// The block is the item with this identifier.
    pub open spec fn spec_owns(self, uuid: Seq<char>) -> bool {
        self.node matches Some(node) && node@.first_text("uuid"@) == Some(uuid)
    }

    fn is_a(&self, tag: &str) -> (r: bool)
        ensures
            r == self.spec_is_a(tag@),
    {
        match &self.node {
            Some(node) => node.is_a(tag),
            None => false,
        }
    }

    fn owns(&self, uuid: &str) -> (r: bool)
        ensures
            r == self.spec_owns(uuid@),
    {
        match &self.node {
            Some(node) => match node.find_str("uuid") {
                Some(own) => same(own, uuid),
                None => false,
            },
            None => false,
        }
    }
}

/// All blocks are well formed.
pub open spec fn wf_blocks(blocks: Seq<Block>) -> bool {
    forall|i: int| 0 <= i < blocks.len() ==> (#[trigger] blocks[i]).wf()
}

/// Where the first item with the identifier stands, from `from` on.
pub open spec fn item_from(items: Seq<Block>, uuid: Seq<char>, from: nat) -> Option<int>
    decreases items.len() - from,
{
    if from >= items.len() {
        None
    } else if items[from as int].spec_owns(uuid) {
        Some(from as int)
    } else {
        item_from(items, uuid, from + 1)
    }
}

/// Where the first item with the identifier that begins with `tag` stands, from `from` on.
pub open spec fn item_of_kind_from(
    items: Seq<Block>,
    tag: Seq<char>,
    uuid: Seq<char>,
    from: nat,
) -> Option<int>
    decreases items.len() - from,
{
    if from >= items.len() {
        None
    } else if items[from as int].spec_is_a(tag) && items[from as int].spec_owns(uuid) {
        Some(from as int)
    } else {
        item_of_kind_from(items, tag, uuid, from + 1)
    }
}

/// Where the first block that begins with `tag` stands, from `from` on.
pub open spec fn child_from(blocks: Seq<Block>, tag: Seq<char>, from: nat) -> Option<int>
    decreases blocks.len() - from,
{
    if from >= blocks.len() {
        None
    } else if blocks[from as int].spec_is_a(tag) {
        Some(from as int)
    } else {
        child_from(blocks, tag, from + 1)
    }
}

/// An index as the place that it stands for.
pub open spec fn opt_place(r: Option<usize>) -> Option<int> {
    match r {
        Some(i) => Some(i as int),
        None => None,
    }
}

/// Where the first item with the identifier stands.
pub fn find_item(items: &Vec<Block>, uuid: &str) -> (r: Option<usize>)
    ensures
        opt_place(r) == item_from(items@, uuid@, 0),
        r matches Some(i) ==> i < items@.len() && items@[i as int].spec_owns(uuid@),
{
    let mut i: usize = 0;
    while i < items.len()
        invariant
            i <= items@.len(),
            item_from(items@, uuid@, 0) == item_from(items@, uuid@, i as nat),
        decreases items@.len() - i,
    {
        if items[i].owns(uuid) {
            return Some(i);
        }
        i = i + 1;
    }
    None
}

/// Where the first item with the identifier that begins with `tag` stands.
pub fn find_item_of_kind(items: &Vec<Block>, tag: &str, uuid: &str) -> (r: Option<usize>)
    ensures
        opt_place(r) == item_of_kind_from(items@, tag@, uuid@, 0),
        r matches Some(i) ==> i < items@.len() && items@[i as int].spec_is_a(tag@)
            && items@[i as int].spec_owns(uuid@),
{
    let mut i: usize = 0;
    while i < items.len()
        invariant
            i <= items@.len(),
            item_of_kind_from(items@, tag@, uuid@, 0) == item_of_kind_from(
                items@,
                tag@,
                uuid@,
                i as nat,
            ),
        decreases items@.len() - i,
    {
        if items[i].is_a(tag) && items[i].owns(uuid) {
            return Some(i);
        }
        i = i + 1;
    }
    None
}

/// Where the first block that begins with `tag` stands.
pub fn find_child(blocks: &Vec<Block>, tag: &str) -> (r: Option<usize>)
    ensures
        opt_place(r) == child_from(blocks@, tag@, 0),
        r matches Some(i) ==> i < blocks@.len() && blocks@[i as int].spec_is_a(tag@),
{
    let mut i: usize = 0;
    while i < blocks.len()
        invariant
            i <= blocks@.len(),
            child_from(blocks@, tag@, 0) == child_from(blocks@, tag@, i as nat),
        decreases blocks@.len() - i,
    {
        if blocks[i].is_a(tag) {
            return Some(i);
        }
        i = i + 1;
    }
    None
}

/// The texts of the parts from `from` up to `to`, each after a space, or `None` where one of
/// them is a list.
pub open spec fn trailing(node: crate::sexp::Sexp, from: int, to: int) -> Option<Seq<char>>
    decreases to - from,
{
    if from >= to {
        Some(Seq::empty())
    } else {
        match (trailing(node, from, to - 1), node.part_text(to - 1)) {
            (Some(before), Some(text)) => Some(before + seq![' '] + text),
            _ => None,
        }
    }
}

/// How the position in a block is written once it is moved.
pub open spec fn moved_point(b: Block, dx: Double, dy: Double) -> Result<EditModel, EditError> {
    match b.node {
        None => Err(EditError::Unreadable),
        Some(node) => match (node@.part_number(1), node@.part_number(2), node@.head()) {
            (None, _, _) => Err(EditError::MissingX),
            (_, None, _) => Err(EditError::MissingY),
            (_, _, None) => Err(EditError::NoItemType),
            (Some(x), Some(y), Some(head)) => match trailing(
                node@,
                3,
                node@.items().len() as int,
            ) {
                None => Err(EditError::NotScalar),
                Some(rest) => Ok(
                    EditModel {
                        start: b.start as nat,
                        end: b.end as nat,
                        replacement: seq!['('] + head + seq![' ']
                            + crate::geometry::coord_text(x.spec_sum(dx)) + seq![' ']
                            + crate::geometry::coord_text(y.spec_sum(dy)) + rest + seq![')'],
                    },
                ),
            },
        },
    }
}

/// The outcome of planning one edit, as a value.
pub open spec fn one(r: Result<Edit, EditError>) -> Result<EditModel, EditError> {
    match r {
        Ok(edit) => Ok(edit.model()),
        Err(error) => Err(error),
    }
}

/// A distance by which items are moved.
pub open spec fn wf_shift(d: Double) -> bool {
    d.wf() && d.within(2000) && d.exponent <= 0
}

/// Writes the position in a block anew, moved by the given distances.
pub fn translated_point_edit(b: &Block, dx: Double, dy: Double) -> (r: Result<Edit, EditError>)
    requires
        b.wf(),
        wf_shift(dx),
        wf_shift(dy),
    ensures
        one(r) == moved_point(*b, dx, dy),
{
    let node = match &b.node {
        Some(node) => node,
        None => {
            return Err(EditError::Unreadable);
        },
    };
    let x = match node.get_number(1) {
        Some(x) => x,
        None => {
            return Err(EditError::MissingX);
        },
    };
    let y = match node.get_number(2) {
        Some(y) => y,
        None => {
            return Err(EditError::MissingY);
        },
    };
    let head = match node.head() {
        Some(head) => head,
        None => {
            return Err(EditError::NoItemType);
        },
    };
    let total: usize = node.count();
    let mut rest = String::new();
    let mut i: usize = 3;
    proof {
        assert(rest@ =~= Seq::empty());
    }
    while i < total
        invariant
            3 <= i,
            i <= total || total < 3,
            total == node@.items().len(),
            Some(rest@) == trailing(node@, 3, if i <= total { i as int } else { 3 }),
            total < 3 ==> i == 3,
            b.node == Some(*node),
            node@.part_number(1) is Some,
            node@.part_number(2) is Some,
            node@.head() is Some,
        decreases total - i,
    {
        match node.get_str(i) {
            Some(text) => {
                let ghost before = rest@;
                rest.push(' ');
                rest.append(text);
                proof {
                    assert(rest@ =~= before + seq![' '] + text@);
                }
            },
            None => {
                proof {
                    lemma_trailing_none(node@, i as int, total as int);
                }
                return Err(EditError::NotScalar);
            },
        }
        i = i + 1;
    }
    proof {
        assert(Some(rest@) == trailing(node@, 3, total as int));
    }
    let mut text = String::new();
    text.push('(');
    text.append(head);
    text.push(' ');
    let first = format_coord(x.plus(dx));
    text.append(first.as_str());
    text.push(' ');
    let second = format_coord(y.plus(dy));
    text.append(second.as_str());
    text.append(rest.as_str());
    text.push(')');
    proof {
        assert(text@ =~= seq!['('] + head@ + seq![' '] + first@ + seq![' '] + second@ + rest@
            + seq![')']);
    }
    Ok(Edit { start: b.start, end: b.end, replacement: text })
}

proof fn lemma_trailing_none(node: crate::sexp::Sexp, i: int, to: int)
    requires
        3 <= i < to,
        node.part_text(i) is None,
    ensures
        trailing(node, 3, to) is None,
    decreases to - i,
{
    if i < to - 1 {
        lemma_trailing_none(node, i, to - 1);
    }
}

/// `acc` followed by one more edit, or the first error.
pub open spec fn with_edit(
    acc: Result<Seq<EditModel>, EditError>,
    edit: Result<EditModel, EditError>,
) -> Result<Seq<EditModel>, EditError> {
    match (acc, edit) {
        (Err(error), _) => Err(error),
        (_, Err(error)) => Err(error),
        (Ok(edits), Ok(edit)) => Ok(edits.push(edit)),
    }
}

/// `acc` followed by the moved positions that stand directly in the first `n` blocks.
pub open spec fn field_edits(
    blocks: Seq<Block>,
    n: nat,
    dx: Double,
    dy: Double,
    acc: Result<Seq<EditModel>, EditError>,
) -> Result<Seq<EditModel>, EditError>
    decreases n,
{
    if n == 0 {
        acc
    } else {
        let before = field_edits(blocks, (n - 1) as nat, dx, dy, acc);
        let b = blocks[n - 1];
        if before is Err {
            before
        } else if b.node is None {
            Err(EditError::Unreadable)
        } else if b.spec_is_a("at"@) {
            with_edit(before, moved_point(b, dx, dy))
        } else {
            before
        }
    }
}

/// The moved position of a symbol and of its fields, from the first `n` of its parts.
pub open spec fn symbol_edits(parts: Seq<Block>, n: nat, dx: Double, dy: Double) -> Result<
    Seq<EditModel>,
    EditError,
>
    decreases n,
{
    if n == 0 {
        Ok(Seq::empty())
    } else {
        let before = symbol_edits(parts, (n - 1) as nat, dx, dy);
        let b = parts[n - 1];
        if before is Err {
            before
        } else if b.node is None {
            Err(EditError::Unreadable)
        } else if b.spec_is_a("at"@) {
            with_edit(before, moved_point(b, dx, dy))
        } else if b.spec_is_a("property"@) {
            field_edits(b.children@, b.children@.len(), dx, dy, before)
        } else {
            before
        }
    }
}

/// `edits`, or an error where there are none.
pub open spec fn unless_empty(
    edits: Result<Seq<EditModel>, EditError>,
    error: EditError,
) -> Result<Seq<EditModel>, EditError> {
    match edits {
        Ok(edits) => if edits.len() == 0 {
            Err(error)
        } else {
            Ok(edits)
        },
        Err(error) => Err(error),
    }
}

/// The edits that move a placed symbol with its fields.
pub open spec fn symbol_move(items: Seq<Block>, uuid: Seq<char>, dx: Double, dy: Double) -> Result<
    Seq<EditModel>,
    EditError,
> {
    match item_of_kind_from(items, "symbol"@, uuid, 0) {
        None => Err(EditError::NotFound),
        Some(i) => unless_empty(
            symbol_edits(items[i].children@, items[i].children@.len(), dx, dy),
            EditError::NoPosition,
        ),
    }
}

fn collect_fields(
    blocks: &Vec<Block>,
    dx: Double,
    dy: Double,
    edits: &mut Vec<Edit>,
) -> (r: Result<(), EditError>)
    requires
        wf_blocks(blocks@),
        wf_shift(dx),
        wf_shift(dy),
    ensures
        match r {
            Ok(_) => field_edits(
                blocks@,
                blocks@.len(),
                dx,
                dy,
                Ok(edit_models(old(edits)@)),
            ) == Ok::<Seq<EditModel>, EditError>(edit_models(final(edits)@)),
            Err(error) => field_edits(
                blocks@,
                blocks@.len(),
                dx,
                dy,
                Ok(edit_models(old(edits)@)),
            ) == Err::<Seq<EditModel>, EditError>(error),
        },
{
    let ghost start: Result<Seq<EditModel>, EditError> = Ok(edit_models(edits@));
    let mut i: usize = 0;
    while i < blocks.len()
        invariant
            i <= blocks@.len(),
            wf_blocks(blocks@),
            wf_shift(dx),
            wf_shift(dy),
            start == Ok::<Seq<EditModel>, EditError>(edit_models(old(edits)@)),
            field_edits(blocks@, i as nat, dx, dy, start) == Ok::<Seq<EditModel>, EditError>(
                edit_models(edits@),
            ),
        decreases blocks@.len() - i,
    {
        let b = &blocks[i];
        let ghost before = edit_models(edits@);
        if b.node.is_none() {
            proof {
                lemma_field_error(blocks@, (i + 1) as nat, blocks@.len(), dx, dy, start);
            }
            return Err(EditError::Unreadable);
        }
        if b.is_a("at") {
            match translated_point_edit(b, dx, dy) {
                Ok(edit) => {
                    edits.push(edit);
                    proof {
                        assert(edit_models(edits@) =~= before.push(edit.model()));
                    }
                },
                Err(error) => {
                    proof {
                        lemma_field_error(blocks@, (i + 1) as nat, blocks@.len(), dx, dy, start);
                    }
                    return Err(error);
                },
            }
        }
        i = i + 1;
    }
    Ok(())
}

proof fn lemma_field_error(
    blocks: Seq<Block>,
    n: nat,
    m: nat,
    dx: Double,
    dy: Double,
    acc: Result<Seq<EditModel>, EditError>,
)
    requires
        n <= m,
        field_edits(blocks, n, dx, dy, acc) is Err,
    ensures
        field_edits(blocks, m, dx, dy, acc) == field_edits(blocks, n, dx, dy, acc),
    decreases m - n,
{
    if n < m {
        lemma_field_error(blocks, n, (m - 1) as nat, dx, dy, acc);
    }
}

proof fn lemma_symbol_error(parts: Seq<Block>, n: nat, m: nat, dx: Double, dy: Double)
    requires
        n <= m,
        symbol_edits(parts, n, dx, dy) is Err,
    ensures
        symbol_edits(parts, m, dx, dy) == symbol_edits(parts, n, dx, dy),
    decreases m - n,
{
    if n < m {
        lemma_symbol_error(parts, n, (m - 1) as nat, dx, dy);
    }
}

/// Plans the move of a placed symbol: its own position and those of its fields move
/// together. Only items of the document are looked at, so no library symbol is ever moved.
pub fn move_symbol_source(items: &Vec<Block>, uuid: &str, dx: Double, dy: Double) -> (r: Result<
    Vec<Edit>,
    EditError,
>)
    requires
        wf_blocks(items@),
        wf_shift(dx),
        wf_shift(dy),
    ensures
        plan(r) == symbol_move(items@, uuid@, dx, dy),
{
    let at: usize = match find_item_of_kind(items, "symbol", uuid) {
        Some(at) => at,
        None => {
            return Err(EditError::NotFound);
        },
    };
    let parts = &items[at].children;
    let mut edits: Vec<Edit> = Vec::new();
    assert(edit_models(edits@) =~= Seq::empty());
    let mut i: usize = 0;
    while i < parts.len()
        invariant
            i <= parts@.len(),
            at < items@.len(),
            item_of_kind_from(items@, "symbol"@, uuid@, 0) == Some(at as int),
            parts@ == items@[at as int].children@,
            wf_blocks(parts@),
            wf_shift(dx),
            wf_shift(dy),
            symbol_edits(parts@, i as nat, dx, dy) == Ok::<Seq<EditModel>, EditError>(
                edit_models(edits@),
            ),
        decreases parts@.len() - i,
    {
        let b = &parts[i];
        let ghost before = edit_models(edits@);
        proof {
            assert(b.wf());
        }
        let step: Result<(), EditError> = if b.node.is_none() {
            Err(EditError::Unreadable)
        } else if b.is_a("at") {
            match translated_point_edit(b, dx, dy) {
                Ok(edit) => {
                    edits.push(edit);
                    proof {
                        assert(edit_models(edits@) =~= before.push(edit.model()));
                    }
                    Ok(())
                },
                Err(error) => Err(error),
            }
        } else if b.is_a("property") {
            collect_fields(&b.children, dx, dy, &mut edits)
        } else {
            Ok(())
        };
        match step {
            Ok(_) => {},
            Err(error) => {
                proof {
                    lemma_symbol_error(parts@, (i + 1) as nat, parts@.len(), dx, dy);
                }
                return Err(error);
            },
        }
        i = i + 1;
    }
    if edits.len() == 0 {
        return Err(EditError::NoPosition);
    }
    Ok(edits)
}

/// `acc` followed by the moved positions at any depth in the first `n` blocks, in the order
/// of the text.
pub open spec fn deep_edits(
    blocks: Seq<Block>,
    n: nat,
    tag: Seq<char>,
    dx: Double,
    dy: Double,
    acc: Result<Seq<EditModel>, EditError>,
) -> Result<Seq<EditModel>, EditError>
    decreases blocks, n,
{
    if n == 0 || n > blocks.len() {
        acc
    } else {
        let before = deep_edits(blocks, (n - 1) as nat, tag, dx, dy, acc);
        let b = blocks[n - 1];
        if before is Err {
            before
        } else {
            let own = if b.spec_is_a(tag) {
                with_edit(before, moved_point(b, dx, dy))
            } else {
                before
            };
            if own is Err {
                own
            } else {
                deep_edits(b.children@, b.children@.len(), tag, dx, dy, own)
            }
        }
    }
}

proof fn lemma_deep_error(
    blocks: Seq<Block>,
    n: nat,
    m: nat,
    tag: Seq<char>,
    dx: Double,
    dy: Double,
    acc: Result<Seq<EditModel>, EditError>,
)
    requires
        n <= m <= blocks.len(),
        deep_edits(blocks, n, tag, dx, dy, acc) is Err,
    ensures
        deep_edits(blocks, m, tag, dx, dy, acc) == deep_edits(blocks, n, tag, dx, dy, acc),
    decreases m - n,
{
    if n < m {
        lemma_deep_error(blocks, n, (m - 1) as nat, tag, dx, dy, acc);
    }
}

fn collect_deep(
    blocks: &Vec<Block>,
    tag: &str,
    dx: Double,
    dy: Double,
    edits: &mut Vec<Edit>,
) -> (r: Result<(), EditError>)
    requires
        wf_blocks(blocks@),
        wf_shift(dx),
        wf_shift(dy),
    ensures
        match r {
            Ok(_) => deep_edits(
                blocks@,
                blocks@.len(),
                tag@,
                dx,
                dy,
                Ok(edit_models(old(edits)@)),
            ) == Ok::<Seq<EditModel>, EditError>(edit_models(final(edits)@)),
            Err(error) => deep_edits(
                blocks@,
                blocks@.len(),
                tag@,
                dx,
                dy,
                Ok(edit_models(old(edits)@)),
            ) == Err::<Seq<EditModel>, EditError>(error),
        },
    decreases blocks@,
{
    let ghost start: Result<Seq<EditModel>, EditError> = Ok(edit_models(edits@));
    let mut i: usize = 0;
    while i < blocks.len()
        invariant
            i <= blocks@.len(),
            wf_blocks(blocks@),
            wf_shift(dx),
            wf_shift(dy),
            start == Ok::<Seq<EditModel>, EditError>(edit_models(old(edits)@)),
            deep_edits(blocks@, i as nat, tag@, dx, dy, start) == Ok::<Seq<EditModel>, EditError>(
                edit_models(edits@),
            ),
        decreases blocks@.len() - i,
    {
        let b = &blocks[i];
        let ghost before = edit_models(edits@);
        proof {
            assert(b.wf());
        }
        if b.is_a(tag) {
            match translated_point_edit(b, dx, dy) {
                Ok(edit) => {
                    edits.push(edit);
                    proof {
                        assert(edit_models(edits@) =~= before.push(edit.model()));
                    }
                },
                Err(error) => {
                    proof {
                        lemma_deep_error(
                            blocks@,
                            (i + 1) as nat,
                            blocks@.len(),
                            tag@,
                            dx,
                            dy,
                            start,
                        );
                    }
                    return Err(error);
                },
            }
        }
        match collect_deep(&b.children, tag, dx, dy, edits) {
            Ok(_) => {},
            Err(error) => {
                proof {
                    lemma_deep_error(blocks@, (i + 1) as nat, blocks@.len(), tag@, dx, dy, start);
                }
                return Err(error);
            },
        }
        i = i + 1;
    }
    Ok(())
}

/// The word that the coordinates of an item begin with.
pub open spec fn coordinate_tag(item: Block) -> Seq<char> {
    if item.spec_is_a("wire"@) || item.spec_is_a("bus"@) {
        "xy"@
    } else {
        "at"@
    }
}

/// The edits that move an item.
pub open spec fn item_move(items: Seq<Block>, uuid: Seq<char>, dx: Double, dy: Double) -> Result<
    Seq<EditModel>,
    EditError,
> {
    match item_from(items, uuid, 0) {
        None => Err(EditError::NotFound),
        Some(i) => if items[i].spec_is_a("symbol"@) {
            symbol_move(items, uuid, dx, dy)
        } else {
            unless_empty(
                deep_edits(
                    items[i].children@,
                    items[i].children@.len(),
                    coordinate_tag(items[i]),
                    dx,
                    dy,
                    Ok(Seq::empty()),
                ),
                EditError::NoCoordinates,
            )
        },
    }
}

/// Plans the move of any item of the document.
pub fn move_item_source(items: &Vec<Block>, uuid: &str, dx: Double, dy: Double) -> (r: Result<
    Vec<Edit>,
    EditError,
>)
    requires
        wf_blocks(items@),
        wf_shift(dx),
        wf_shift(dy),
    ensures
        plan(r) == item_move(items@, uuid@, dx, dy),
{
    let at: usize = match find_item(items, uuid) {
        Some(at) => at,
        None => {
            return Err(EditError::NotFound);
        },
    };
    if items[at].is_a("symbol") {
        return move_symbol_source(items, uuid, dx, dy);
    }
    let tag: &str = if items[at].is_a("wire") || items[at].is_a("bus") {
        "xy"
    } else {
        "at"
    };
    let mut edits: Vec<Edit> = Vec::new();
    proof {
        assert(edit_models(edits@) =~= Seq::empty());
        assert(items@[at as int].wf());
    }
    match collect_deep(&items[at].children, tag, dx, dy, &mut edits) {
        Ok(_) => {},
        Err(error) => {
            return Err(error);
        },
    }
    if edits.len() == 0 {
        return Err(EditError::NoCoordinates);
    }
    Ok(edits)
}

/// The first blocks at any depth that begin with `tag`, in the order of the text, after those
/// in `acc`; no more than `limit` in all.
pub open spec fn deep_found(blocks: Seq<Block>, n: nat, tag: Seq<char>, limit: nat, acc: Seq<Block>) -> Seq<
    Block,
>
    decreases blocks, n,
{
    if n == 0 || n > blocks.len() {
        acc
    } else {
        let before = deep_found(blocks, (n - 1) as nat, tag, limit, acc);
        let b = blocks[n - 1];
        let own = if before.len() < limit && b.spec_is_a(tag) {
            before.push(b)
        } else {
            before
        };
        deep_found(b.children@, b.children@.len(), tag, limit, own)
    }
}

fn collect_found<'a>(blocks: &'a Vec<Block>, tag: &str, limit: usize, found: &mut Vec<&'a Block>)
    requires
        wf_blocks(blocks@),
        old(found)@.len() <= limit,
        forall|i: int| 0 <= i < old(found)@.len() ==> (#[trigger] old(found)@[i]).wf(),
    ensures
        blocks_of(final(found)@) == deep_found(
            blocks@,
            blocks@.len(),
            tag@,
            limit as nat,
            blocks_of(old(found)@),
        ),
        final(found)@.len() <= limit,
        forall|i: int| 0 <= i < final(found)@.len() ==> (#[trigger] final(found)@[i]).wf(),
    decreases blocks@,
{
    let ghost start = blocks_of(found@);
    let mut i: usize = 0;
    while i < blocks.len()
        invariant
            i <= blocks@.len(),
            wf_blocks(blocks@),
            found@.len() <= limit,
            forall|i: int| 0 <= i < found@.len() ==> (#[trigger] found@[i]).wf(),
            blocks_of(found@) == deep_found(blocks@, i as nat, tag@, limit as nat, start),
            start == blocks_of(old(found)@),
        decreases blocks@.len() - i,
    {
        let b = &blocks[i];
        let ghost before = blocks_of(found@);
        assert(b.wf());
        if found.len() < limit && b.is_a(tag) {
            found.push(b);
            assert(blocks_of(found@) =~= before.push(*b));
        }
        collect_found(&b.children, tag, limit, found);
        i = i + 1;
    }
}

/// The blocks that references lead to.
pub open spec fn blocks_of(found: Seq<&Block>) -> Seq<Block> {
    found.map_values(|b: &Block| *b)
}

/// The two ends of a wire: its first two points, or else its start and its end.
pub open spec fn wire_ends(item: Block) -> Seq<Block> {
    let parts = item.children@;
    let points = deep_found(parts, parts.len(), "xy"@, 2, Seq::empty());
    if points.len() < 2 {
        deep_found(parts, parts.len(), "start"@, 1, Seq::empty()) + deep_found(
            parts,
            parts.len(),
            "end"@,
            1,
            Seq::empty(),
        )
    } else {
        points
    }
}

/// The edits that move one end of a wire, or both.
pub open spec fn wire_move(
    items: Seq<Block>,
    uuid: Seq<char>,
    move_start: bool,
    move_end: bool,
    dx: Double,
    dy: Double,
) -> Result<Seq<EditModel>, EditError> {
    if move_start && move_end {
        item_move(items, uuid, dx, dy)
    } else {
        match item_of_kind_from(items, "wire"@, uuid, 0) {
            None => Err(EditError::NotFound),
            Some(i) => {
                let ends = wire_ends(items[i]);
                if ends.len() != 2 {
                    Err(EditError::NotTwoEnds)
                } else if move_start {
                    with_edit(Ok(Seq::empty()), moved_point(ends[0], dx, dy))
                } else if move_end {
                    with_edit(Ok(Seq::empty()), moved_point(ends[1], dx, dy))
                } else {
                    Ok(Seq::empty())
                }
            },
        }
    }
}

/// Plans the move of the ends of a wire that stay attached to what moves.
pub fn move_wire_endpoints_source(
    items: &Vec<Block>,
    uuid: &str,
    move_start: bool,
    move_end: bool,
    dx: Double,
    dy: Double,
) -> (r: Result<Vec<Edit>, EditError>)
    requires
        wf_blocks(items@),
        wf_shift(dx),
        wf_shift(dy),
    ensures
        plan(r) == wire_move(items@, uuid@, move_start, move_end, dx, dy),
{
    if move_start && move_end {
        return move_item_source(items, uuid, dx, dy);
    }
    let at: usize = match find_item_of_kind(items, "wire", uuid) {
        Some(at) => at,
        None => {
            return Err(EditError::NotFound);
        },
    };
    let parts = &items[at].children;
    proof {
        assert(items@[at as int].wf());
    }
    let mut ends: Vec<&Block> = Vec::new();
    assert(blocks_of(ends@) =~= Seq::empty());
    collect_found(parts, "xy", 2, &mut ends);
    if ends.len() < 2 {
        let mut starts: Vec<&Block> = Vec::new();
        assert(blocks_of(starts@) =~= Seq::empty());
        collect_found(parts, "start", 1, &mut starts);
        let mut stops: Vec<&Block> = Vec::new();
        assert(blocks_of(stops@) =~= Seq::empty());
        collect_found(parts, "end", 1, &mut stops);
        let ghost both = blocks_of(starts@) + blocks_of(stops@);
        ends = starts;
        ends.append(&mut stops);
        assert(blocks_of(ends@) =~= both);
    }
    if ends.len() != 2 {
        return Err(EditError::NotTwoEnds);
    }
    assert(blocks_of(ends@)[0] == *ends@[0] && blocks_of(ends@)[1] == *ends@[1]);
    let mut edits: Vec<Edit> = Vec::new();
    assert(edit_models(edits@) =~= Seq::empty());
    if move_start || move_end {
        let end: &Block = if move_start {
            ends[0]
        } else {
            ends[1]
        };
        match translated_point_edit(end, dx, dy) {
            Ok(edit) => {
                edits.push(edit);
                assert(edit_models(edits@) =~= Seq::empty().push(edit.model()));
            },
            Err(error) => {
                return Err(error);
            },
        }
    }
    Ok(edits)
}

/// A replacement of a block.
pub open spec fn replaced(b: Block, text: Seq<char>) -> EditModel {
    EditModel { start: b.start as nat, end: b.end as nat, replacement: text }
}

/// The position of a symbol with its rotation changed.
pub open spec fn turned_at(b: Block, delta: Double) -> Result<Seq<EditModel>, EditError> {
    match b.node {
        None => Err(EditError::Unreadable),
        Some(node) => match (node@.part_number(1), node@.part_number(2)) {
            (None, _) => Err(EditError::MissingX),
            (_, None) => Err(EditError::MissingY),
            (Some(x), Some(y)) => {
                let turn = match node@.part_number(3) {
                    Some(turn) => turn,
                    None => Double::spec_zero(),
                };
                Ok(
                    seq![
                        replaced(
                            b,
                            "(at "@ + crate::geometry::coord_text(x) + seq![' ']
                                + crate::geometry::coord_text(y) + seq![' ']
                                + crate::geometry::coord_text(turn.spec_sum(delta).spec_turned())
                                + seq![')'],
                        ),
                    ],
                )
            },
        },
    }
}

/// The edits that rotate a placed symbol.
pub open spec fn symbol_turn(items: Seq<Block>, uuid: Seq<char>, delta: Double) -> Result<
    Seq<EditModel>,
    EditError,
> {
    match item_of_kind_from(items, "symbol"@, uuid, 0) {
        None => Err(EditError::NotFound),
        Some(i) => match child_from(items[i].children@, "at"@, 0) {
            None => Err(EditError::NoPosition),
            Some(k) => turned_at(items[i].children@[k], delta),
        },
    }
}

/// Plans the rotation of a placed symbol.
pub fn rotate_symbol_source(items: &Vec<Block>, uuid: &str, delta_degrees: Double) -> (r: Result<
    Vec<Edit>,
    EditError,
>)
    requires
        wf_blocks(items@),
        delta_degrees.wf(),
        -2000 <= delta_degrees.exponent <= 0,
    ensures
        plan(r) == symbol_turn(items@, uuid@, delta_degrees),
{
    let at: usize = match find_item_of_kind(items, "symbol", uuid) {
        Some(at) => at,
        None => {
            return Err(EditError::NotFound);
        },
    };
    let parts = &items[at].children;
    let k: usize = match find_child(parts, "at") {
        Some(k) => k,
        None => {
            return Err(EditError::NoPosition);
        },
    };
    proof {
        assert(items@[at as int].wf());
        assert(parts@[k as int].wf());
    }
    let b = &parts[k];
    let node = match &b.node {
        Some(node) => node,
        None => {
            return Err(EditError::Unreadable);
        },
    };
    let x = match node.get_number(1) {
        Some(x) => x,
        None => {
            return Err(EditError::MissingX);
        },
    };
    let y = match node.get_number(2) {
        Some(y) => y,
        None => {
            return Err(EditError::MissingY);
        },
    };
    let turn = match node.get_number(3) {
        Some(turn) => turn,
        None => Double { negative: false, mantissa: 0, exponent: 0 },
    };
    let first = format_coord(x);
    let second = format_coord(y);
    let third = format_coord(turn.plus(delta_degrees).turned());
    let mut text = "(at ".to_owned();
    text.append(first.as_str());
    text.push(' ');
    text.append(second.as_str());
    text.push(' ');
    text.append(third.as_str());
    text.push(')');
    let mut edits: Vec<Edit> = Vec::new();
    proof {
        assert(text@ =~= "(at "@ + first@ + seq![' '] + second@ + seq![' '] + third@ + seq![')']);
    }
    let edit = Edit { start: b.start, end: b.end, replacement: text };
    edits.push(edit);
    assert(edit_models(edits@) =~= seq![edit.model()]);
    Ok(edits)
}

/// The size of a bus entry, turned a quarter clockwise.
pub open spec fn turned_size(b: Block) -> Result<Seq<EditModel>, EditError> {
    match b.node {
        None => Err(EditError::Unreadable),
        Some(node) => match (node@.part_number(1), node@.part_number(2)) {
            (None, _) => Err(EditError::MissingX),
            (_, None) => Err(EditError::MissingY),
            (Some(x), Some(y)) => Ok(
                seq![
                    replaced(
                        b,
                        "(size "@ + crate::geometry::coord_text(y.spec_neg()) + seq![' ']
                            + crate::geometry::coord_text(x) + seq![')'],
                    ),
                ],
            ),
        },
    }
}

/// The edits that rotate a bus entry.
pub open spec fn bus_entry_turn(items: Seq<Block>, uuid: Seq<char>) -> Result<
    Seq<EditModel>,
    EditError,
> {
    match item_of_kind_from(items, "bus_entry"@, uuid, 0) {
        None => Err(EditError::NotFound),
        Some(i) => match child_from(items[i].children@, "size"@, 0) {
            None => Err(EditError::NoSize),
            Some(k) => turned_size(items[i].children@[k]),
        },
    }
}

/// Plans a quarter turn of a bus entry.
pub fn rotate_bus_entry_source(items: &Vec<Block>, uuid: &str) -> (r: Result<Vec<Edit>, EditError>)
    requires
        wf_blocks(items@),
    ensures
        plan(r) == bus_entry_turn(items@, uuid@),
{
    let at: usize = match find_item_of_kind(items, "bus_entry", uuid) {
        Some(at) => at,
        None => {
            return Err(EditError::NotFound);
        },
    };
    let parts = &items[at].children;
    let k: usize = match find_child(parts, "size") {
        Some(k) => k,
        None => {
            return Err(EditError::NoSize);
        },
    };
    proof {
        assert(items@[at as int].wf());
        assert(parts@[k as int].wf());
    }
    let b = &parts[k];
    let node = match &b.node {
        Some(node) => node,
        None => {
            return Err(EditError::Unreadable);
        },
    };
    let x = match node.get_number(1) {
        Some(x) => x,
        None => {
            return Err(EditError::MissingX);
        },
    };
    let y = match node.get_number(2) {
        Some(y) => y,
        None => {
            return Err(EditError::MissingY);
        },
    };
    let first = format_coord(y.negated());
    let second = format_coord(x);
    let mut text = "(size ".to_owned();
    text.append(first.as_str());
    text.push(' ');
    text.append(second.as_str());
    text.push(')');
    proof {
        assert(text@ =~= "(size "@ + first@ + seq![' '] + second@ + seq![')']);
    }
    let edit = Edit { start: b.start, end: b.end, replacement: text };
    let mut edits: Vec<Edit> = Vec::new();
    edits.push(edit);
    assert(edit_models(edits@) =~= seq![edit.model()]);
    Ok(edits)
}

/// 90 degrees.
pub open spec fn quarter_turn() -> Double {
    Double { negative: false, mantissa: 0x16_8000_0000_0000, exponent: (-46) as i64 }
}

/// The edits that rotate an item.
pub open spec fn item_turn(items: Seq<Block>, uuid: Seq<char>) -> Result<
    Seq<EditModel>,
    EditError,
> {
    match item_from(items, uuid, 0) {
        None => Err(EditError::NotFound),
        Some(i) => if items[i].node->0@.head() is None {
            Err(EditError::NotFound)
        } else if items[i].spec_is_a("symbol"@) {
            symbol_turn(items, uuid, quarter_turn())
        } else if items[i].spec_is_a("bus_entry"@) {
            bus_entry_turn(items, uuid)
        } else {
            Err(EditError::NotRotatable)
        },
    }
}

/// Plans a quarter turn of any item that can be rotated.
pub fn rotate_item_source(items: &Vec<Block>, uuid: &str) -> (r: Result<Vec<Edit>, EditError>)
    requires
        wf_blocks(items@),
    ensures
        plan(r) == item_turn(items@, uuid@),
{
    let at: usize = match find_item(items, uuid) {
        Some(at) => at,
        None => {
            return Err(EditError::NotFound);
        },
    };
    let headless: bool = match &items[at].node {
        Some(node) => node.head().is_none(),
        None => true,
    };
    if headless {
        Err(EditError::NotFound)
    } else if items[at].is_a("symbol") {
        let quarter = Double { negative: false, mantissa: 0x16_8000_0000_0000, exponent: -46 };
        rotate_symbol_source(items, uuid, quarter)
    } else if items[at].is_a("bus_entry") {
        rotate_bus_entry_source(items, uuid)
    } else {
        Err(EditError::NotRotatable)
    }
}

/// The first indentation among the blocks from `from` on that is not empty, two spaces where
/// there is none.
pub open spec fn indent_from(blocks: Seq<Block>, from: nat) -> Seq<char>
    decreases blocks.len() - from,
{
    if from >= blocks.len() {
        "  "@
    } else if blocks[from as int].indent@.len() > 0 {
        blocks[from as int].indent@
    } else {
        indent_from(blocks, from + 1)
    }
}

/// The edit that mirrors a symbol along an axis, or takes that mirror off again.
pub open spec fn mirror_toggle(parts: Seq<Block>, axis: Seq<char>) -> Result<
    Seq<EditModel>,
    EditError,
> {
    match child_from(parts, "mirror"@, 0) {
        Some(k) => if parts[k].node->0@.part_text(1) == Some(axis) {
            Ok(seq![replaced(parts[k], Seq::empty())])
        } else {
            Ok(seq![replaced(parts[k], "(mirror "@ + axis + seq![')'])])
        },
        None => match child_from(parts, "at"@, 0) {
            None => Err(EditError::NoPosition),
            Some(k) => Ok(
                seq![
                    EditModel {
                        start: parts[k].end as nat,
                        end: parts[k].end as nat,
                        replacement: seq!['\n'] + indent_from(parts, 0) + "(mirror "@ + axis
                            + seq![')'],
                    },
                ],
            ),
        },
    }
}

/// The edits that toggle a mirror of a placed symbol.
pub open spec fn symbol_mirror(items: Seq<Block>, uuid: Seq<char>, axis: Seq<char>) -> Result<
    Seq<EditModel>,
    EditError,
> {
    if axis != "x"@ && axis != "y"@ {
        Err(EditError::BadAxis)
    } else {
        match item_of_kind_from(items, "symbol"@, uuid, 0) {
            None => Err(EditError::NotFound),
            Some(i) => mirror_toggle(items[i].children@, axis),
        }
    }
}

/// Plans to mirror a placed symbol along an axis, `x` or `y`, or to take that mirror off.
pub fn mirror_symbol_source(items: &Vec<Block>, uuid: &str, axis: &str) -> (r: Result<
    Vec<Edit>,
    EditError,
>)
    ensures
        plan(r) == symbol_mirror(items@, uuid@, axis@),
{
    if !same(axis, "x") && !same(axis, "y") {
        return Err(EditError::BadAxis);
    }
    let at: usize = match find_item_of_kind(items, "symbol", uuid) {
        Some(at) => at,
        None => {
            return Err(EditError::NotFound);
        },
    };
    let parts = &items[at].children;
    let mut edits: Vec<Edit> = Vec::new();
    match find_child(parts, "mirror") {
        Some(k) => {
            let b = &parts[k];
            let same_axis: bool = match &b.node {
                Some(node) => match node.get_str(1) {
                    Some(own) => same(own, axis),
                    None => false,
                },
                None => false,
            };
            let mut text = String::new();
            if !same_axis {
                text = "(mirror ".to_owned();
                text.append(axis);
                text.push(')');
                assert(text@ =~= "(mirror "@ + axis@ + seq![')']);
            } else {
                assert(text@ =~= Seq::empty());
            }
            let edit = Edit { start: b.start, end: b.end, replacement: text };
            edits.push(edit);
            assert(edit_models(edits@) =~= seq![edit.model()]);
        },
        None => {
            let k: usize = match find_child(parts, "at") {
                Some(k) => k,
                None => {
                    return Err(EditError::NoPosition);
                },
            };
            let mut i: usize = 0;
            while i < parts.len() && parts[i].indent.as_str().is_empty()
                invariant
                    i <= parts@.len(),
                    indent_from(parts@, 0) == indent_from(parts@, i as nat),
                decreases parts@.len() - i,
            {
                i = i + 1;
            }
            let mut text = String::new();
            text.push('\n');
            if i < parts.len() {
                text.append(parts[i].indent.as_str());
            } else {
                text.append("  ");
            }
            text.append("(mirror ");
            text.append(axis);
            text.push(')');
            assert(text@ =~= seq!['\n'] + indent_from(parts@, 0) + "(mirror "@ + axis@ + seq![')']);
            let edit = Edit { start: parts[k].end, end: parts[k].end, replacement: text };
            edits.push(edit);
            assert(edit_models(edits@) =~= seq![edit.model()]);
        },
    }
    Ok(edits)
}

/// The contents of the quoted strings among `bytes` from `at` on, as ranges without the
/// quotes. `open` is where the contents of a string that is open at `at` began; `escaped`,
/// that a backslash stands just before `at` in it.
pub open spec fn quoted_from(bytes: Seq<u8>, at: nat, open: Option<nat>, escaped: bool) -> Seq<
    (nat, nat),
>
    decreases bytes.len() - at,
{
    if at >= bytes.len() {
        Seq::empty()
    } else {
        let byte = bytes[at as int];
        match open {
            Some(start) => if escaped {
                quoted_from(bytes, at + 1, open, false)
            } else if byte == 92 {
                quoted_from(bytes, at + 1, open, true)
            } else if byte == 34 {
                seq![(start, at)] + quoted_from(bytes, at + 1, None, false)
            } else {
                quoted_from(bytes, at + 1, open, false)
            },
            None => if byte == 34 {
                quoted_from(bytes, at + 1, Some(at + 1), false)
            } else {
                quoted_from(bytes, at + 1, None, false)
            },
        }
    }
}

/// Ranges as values.
pub open spec fn range_models(ranges: Seq<(usize, usize)>) -> Seq<(nat, nat)> {
    ranges.map_values(|r: (usize, usize)| (r.0 as nat, r.1 as nat))
}

fn quoted_ranges(bytes: &[u8], from: usize, to: usize) -> (r: Vec<(usize, usize)>)
    requires
        from <= to <= bytes@.len(),
    ensures
        range_models(r@) == quoted_from(
            bytes@.subrange(from as int, to as int),
            0,
            None,
            false,
        ),
        forall|i: int| 0 <= i < r@.len() ==> (#[trigger] r@[i]).0 <= r@[i].1 <= to - from,
{
    let ghost text = bytes@.subrange(from as int, to as int);
    let mut ranges: Vec<(usize, usize)> = Vec::new();
    let mut open: Option<usize> = None;
    let mut escaped: bool = false;
    let mut i: usize = from;
    assert(range_models(ranges@) + quoted_from(text, 0, None, false) =~= quoted_from(
        text,
        0,
        None,
        false,
    ));
    while i < to
        invariant
            from <= i <= to <= bytes@.len(),
            text == bytes@.subrange(from as int, to as int),
            open matches Some(start) ==> start <= i - from,
            open is None ==> !escaped,
            forall|i: int|
                0 <= i < ranges@.len() ==> (#[trigger] ranges@[i]).0 <= ranges@[i].1 <= to - from,
            range_models(ranges@) + quoted_from(
                text,
                (i - from) as nat,
                match open {
                    Some(start) => Some(start as nat),
                    None => None,
                },
                escaped,
            ) == quoted_from(text, 0, None, false),
        decreases to - i,
    {
        let byte: u8 = bytes[i];
        let ghost before = range_models(ranges@);
        assert(text[i - from] == byte);
        match open {
            Some(start) => {
                if escaped {
                    escaped = false;
                } else if byte == 92 {
                    escaped = true;
                } else if byte == 34 {
                    ranges.push((start, i - from));
                    open = None;
                    proof {
                        let rest = quoted_from(text, (i - from + 1) as nat, None, false);
                        assert(range_models(ranges@) =~= before + seq![
                            (start as nat, (i - from) as nat),
                        ]);
                        assert(range_models(ranges@) + rest =~= before + (seq![
                            (start as nat, (i - from) as nat),
                        ] + rest));
                    }
                }
            },
            None => {
                if byte == 34 {
                    open = Some(i - from + 1);
                }
            },
        }
        i = i + 1;
    }
    assert(range_models(ranges@) + Seq::<(nat, nat)>::empty() =~= range_models(ranges@));
    ranges
}

/// The contents of the quoted strings in a text, as byte ranges without the quotes.
pub fn quoted_content_ranges(source: &str) -> (r: Vec<(usize, usize)>)
    ensures
        range_models(r@) == quoted_from(vstd::utf8::encode_utf8(source@), 0, None, false),
{
    let bytes = source.as_bytes();
    let all: usize = bytes.len();
    assert(bytes@.subrange(0, all as int) =~= bytes@);
    quoted_ranges(bytes, 0, all)
}

/// What is quoted stands between quotes, and no string reaches into the next.
pub proof fn quoted_ranges_are_quoted(bytes: Seq<u8>, at: nat, open: Option<nat>, escaped: bool)
    requires
        open matches Some(start) ==> 0 < start <= at && start <= bytes.len() && bytes[start - 1]
            == 34,
    ensures
        ({
            let found = quoted_from(bytes, at, open, escaped);
            &&& forall|i: int|
                0 <= i < found.len() ==> {
                    let (from, to) = #[trigger] found[i];
                    &&& 0 < from <= to < bytes.len()
                    &&& bytes[from - 1] == 34 && bytes[to as int] == 34
                    &&& at <= to
                    &&& i > 0 ==> found[i - 1].1 < from - 1
                }
            &&& found.len() > 0 ==> (open matches Some(start) ==> found[0].0 == start)
            &&& found.len() > 0 && open is None ==> found[0].0 > at
        }),
    decreases bytes.len() - at,
{
    if at < bytes.len() {
        let byte = bytes[at as int];
        match open {
            Some(start) => {
                if escaped {
                    quoted_ranges_are_quoted(bytes, at + 1, open, false);
                } else if byte == 92 {
                    quoted_ranges_are_quoted(bytes, at + 1, open, true);
                } else if byte == 34 {
                    quoted_ranges_are_quoted(bytes, at + 1, None, false);
                    let rest = quoted_from(bytes, at + 1, None, false);
                    let found = seq![(start, at)] + rest;
                    assert forall|i: int| 0 <= i < found.len() implies {
                        let (from, to) = #[trigger] found[i];
                        &&& 0 < from <= to < bytes.len()
                        &&& bytes[from - 1] == 34 && bytes[to as int] == 34
                        &&& at <= to
                        &&& i > 0 ==> found[i - 1].1 < from - 1
                    } by {
                        if i > 0 {
                            assert(found[i] == rest[i - 1]);
                            if i > 1 {
                                assert(found[i - 1] == rest[i - 2]);
                            }
                        }
                    }
                } else {
                    quoted_ranges_are_quoted(bytes, at + 1, open, false);
                }
            },
            None => {
                if byte == 34 {
                    quoted_ranges_are_quoted(bytes, at + 1, Some(at + 1), false);
                } else {
                    quoted_ranges_are_quoted(bytes, at + 1, None, false);
                }
            },
        }
    }
}

/// `s` without the digits and question marks that it ends with.
pub open spec fn without_number(s: Seq<char>) -> Seq<char>
    decreases s.len(),
{
    if s.len() > 0 && ('0' <= s.last() <= '9' || s.last() == '?') {
        without_number(s.drop_last())
    } else {
        s
    }
}

/// The reference of a copy: that of the symbol with its number open.
pub open spec fn open_reference(symbol: crate::sexp::Sexp) -> Seq<char> {
    let reference = match crate::readers::reference_of(symbol) {
        Some(reference) => reference,
        None => "U?"@,
    };
    let prefix = without_number(reference);
    (if prefix.len() == 0 {
        "U"@
    } else {
        prefix
    }) + seq!['?']
}

/// An edit of a block within the text that begins at `base`.
pub open spec fn local(b: Block, base: nat, text: Seq<char>) -> EditModel {
    EditModel { start: (b.start - base) as nat, end: (b.end - base) as nat, replacement: text }
}

/// The edits that give a copy of a symbol its identifier and its open reference, from the
/// first `n` of its parts.
pub open spec fn identity_edits(
    parts: Seq<Block>,
    n: nat,
    base: nat,
    bytes: Seq<u8>,
    uuid: Seq<char>,
    reference: Seq<char>,
) -> Result<Seq<EditModel>, EditError>
    decreases n,
{
    if n == 0 {
        Ok(Seq::empty())
    } else {
        let before = identity_edits(parts, (n - 1) as nat, base, bytes, uuid, reference);
        let b = parts[n - 1];
        if before is Err {
            before
        } else if b.node is None {
            Err(EditError::Unreadable)
        } else if b.spec_is_a("uuid"@) {
            with_edit(before, Ok(local(b, base, "(uuid \""@ + uuid + "\")"@)))
        } else if b.spec_is_a("property"@) && b.node->0@.part_text(1) == Some("Reference"@) {
            let own = bytes.subrange(b.start - base, b.end - base);
            let strings = quoted_from(own, 0, None, false);
            if strings.len() < 2 {
                Err(EditError::NoReferenceValue)
            } else {
                with_edit(
                    before,
                    Ok(
                        EditModel {
                            start: (b.start - base + strings[1].0) as nat,
                            end: (b.start - base + strings[1].1) as nat,
                            replacement: reference,
                        },
                    ),
                )
            }
        } else {
            before
        }
    }
}

/// `acc` followed by the edits that write the open reference into each `reference` at any depth
/// in the first `n` blocks.
pub open spec fn reference_edits(
    blocks: Seq<Block>,
    n: nat,
    base: nat,
    reference: Seq<char>,
    acc: Seq<EditModel>,
) -> Seq<EditModel>
    decreases blocks, n,
{
    if n == 0 || n > blocks.len() {
        acc
    } else {
        let before = reference_edits(blocks, (n - 1) as nat, base, reference, acc);
        let b = blocks[n - 1];
        let own = if b.spec_is_a("reference"@) {
            before.push(local(b, base, "(reference \""@ + reference + "\")"@))
        } else {
            before
        };
        reference_edits(b.children@, b.children@.len(), base, reference, own)
    }
}

/// The edits that turn the text of a symbol into that of a copy of it.
pub open spec fn copy_edits(symbol: Block, text: Seq<char>, uuid: Seq<char>) -> Result<
    Seq<EditModel>,
    EditError,
> {
    match symbol.node {
        None => Err(EditError::Unreadable),
        Some(node) => {
            let parts = symbol.children@;
            let base = symbol.start as nat;
            let reference = open_reference(node@);
            match identity_edits(
                parts,
                parts.len(),
                base,
                vstd::utf8::encode_utf8(text),
                uuid,
                reference,
            ) {
                Err(error) => Err(error),
                Ok(edits) => Ok(reference_edits(parts, parts.len(), base, reference, edits)),
            }
        },
    }
}

fn trim_number(s: &str) -> (r: String)
    ensures
        r@ == without_number(s@),
{
    let chars = crate::text::chars_of(s);
    let mut n: usize = chars.len();
    assert(chars@.take(n as int) =~= chars@);
    while n > 0 && (('0' <= chars[n - 1] && chars[n - 1] <= '9') || chars[n - 1] == '?')
        invariant
            n <= chars@.len(),
            without_number(chars@.take(n as int)) == without_number(chars@),
        decreases n,
    {
        assert(chars@.take(n as int).drop_last() =~= chars@.take(n - 1));
        n = n - 1;
    }
    assert(chars@.subrange(0, n as int) =~= chars@.take(n as int));
    crate::text::string_of(&chars, 0, n)
}

fn to_open_reference(node: &Node) -> (r: String)
    ensures
        r@ == open_reference(node@),
{
    let reference: &str = match crate::readers::symbol_reference(node) {
        Some(reference) => reference,
        None => "U?",
    };
    let mut r = trim_number(reference);
    if r.as_str().is_empty() {
        r = "U".to_owned();
    }
    let ghost before = r@;
    r.push('?');
    assert(r@ =~= before + seq!['?']);
    r
}

fn collect_references(
    blocks: &Vec<Block>,
    base: usize,
    reference: &str,
    edits: &mut Vec<Edit>,
)
    requires
        wf_blocks(blocks@),
        forall|i: int| 0 <= i < blocks@.len() ==> base <= (#[trigger] blocks@[i]).start,
    ensures
        edit_models(final(edits)@) == reference_edits(
            blocks@,
            blocks@.len(),
            base as nat,
            reference@,
            edit_models(old(edits)@),
        ),
    decreases blocks@,
{
    let ghost start = edit_models(edits@);
    let mut i: usize = 0;
    while i < blocks.len()
        invariant
            i <= blocks@.len(),
            wf_blocks(blocks@),
            forall|i: int| 0 <= i < blocks@.len() ==> base <= (#[trigger] blocks@[i]).start,
            start == edit_models(old(edits)@),
            edit_models(edits@) == reference_edits(
                blocks@,
                i as nat,
                base as nat,
                reference@,
                start,
            ),
        decreases blocks@.len() - i,
    {
        let b = &blocks[i];
        let ghost before = edit_models(edits@);
        assert(b.wf());
        assert(base <= blocks@[i as int].start);
        if b.is_a("reference") {
            let text = crate::text::joined3("(reference \"", reference, "\")");
            let edit = Edit { start: b.start - base, end: b.end - base, replacement: text };
            edits.push(edit);
            assert(edit_models(edits@) =~= before.push(edit.model()));
        }
        assert forall|k: int| 0 <= k < b.children@.len() implies base <= (
        #[trigger] b.children@[k]).start by {
            assert(b.children@[k].wf());
        }
        collect_references(&b.children, base, reference, edits);
        i = i + 1;
    }
}

proof fn lemma_identity_error(
    parts: Seq<Block>,
    n: nat,
    m: nat,
    base: nat,
    bytes: Seq<u8>,
    uuid: Seq<char>,
    reference: Seq<char>,
)
    requires
        n <= m,
        identity_edits(parts, n, base, bytes, uuid, reference) is Err,
    ensures
        identity_edits(parts, m, base, bytes, uuid, reference) == identity_edits(
            parts,
            n,
            base,
            bytes,
            uuid,
            reference,
        ),
    decreases m - n,
{
    if n < m {
        lemma_identity_error(parts, n, (m - 1) as nat, base, bytes, uuid, reference);
    }
}

/// Plans a copy of a symbol, as edits of its own text: the copy gets the identifier `new_uuid`
/// and a reference whose number is open.
pub fn duplicate_symbol_block(symbol: &Block, text: &str, new_uuid: &str) -> (r: Result<
    Vec<Edit>,
    EditError,
>)
    requires
        symbol.wf(),
        vstd::utf8::encode_utf8(text@).len() == symbol.end - symbol.start,
    ensures
        plan(r) == copy_edits(*symbol, text@, new_uuid@),
{
    let node = match &symbol.node {
        Some(node) => node,
        None => {
            return Err(EditError::Unreadable);
        },
    };
    let reference = to_open_reference(node);
    let bytes = text.as_bytes();
    let parts = &symbol.children;
    let base: usize = symbol.start;
    let mut edits: Vec<Edit> = Vec::new();
    assert(edit_models(edits@) =~= Seq::empty());
    let mut i: usize = 0;
    while i < parts.len()
        invariant
            i <= parts@.len(),
            symbol.wf(),
            symbol.node == Some(*node),
            reference@ == open_reference(node@),
            parts@ == symbol.children@,
            base == symbol.start,
            bytes@ == vstd::utf8::encode_utf8(text@),
            bytes@.len() == symbol.end - symbol.start,
            identity_edits(
                parts@,
                i as nat,
                base as nat,
                bytes@,
                new_uuid@,
                reference@,
            ) == Ok::<Seq<EditModel>, EditError>(edit_models(edits@)),
        decreases parts@.len() - i,
    {
        let b = &parts[i];
        let ghost before = edit_models(edits@);
        assert(parts@[i as int].wf());
        let own_reference: bool = match &b.node {
            Some(own) => match own.get_str(1) {
                Some(name) => same(name, "Reference"),
                None => false,
            },
            None => {
                proof {
                    lemma_identity_error(
                        parts@,
                        (i + 1) as nat,
                        parts@.len(),
                        base as nat,
                        bytes@,
                        new_uuid@,
                        reference@,
                    );
                }
                return Err(EditError::Unreadable);
            },
        };
        if b.is_a("uuid") {
            let replacement = crate::text::joined3("(uuid \"", new_uuid, "\")");
            let edit = Edit { start: b.start - base, end: b.end - base, replacement };
            edits.push(edit);
            assert(edit_models(edits@) =~= before.push(edit.model()));
        } else if b.is_a("property") && own_reference {
            let strings = quoted_ranges(bytes, b.start - base, b.end - base);
            if strings.len() < 2 {
                proof {
                    lemma_identity_error(
                        parts@,
                        (i + 1) as nat,
                        parts@.len(),
                        base as nat,
                        bytes@,
                        new_uuid@,
                        reference@,
                    );
                }
                return Err(EditError::NoReferenceValue);
            }
            assert(range_models(strings@)[1] == (strings@[1].0 as nat, strings@[1].1 as nat));
            let edit = Edit {
                start: b.start - base + strings[1].0,
                end: b.start - base + strings[1].1,
                replacement: reference.clone(),
            };
            edits.push(edit);
            assert(edit_models(edits@) =~= before.push(edit.model()));
        }
        i = i + 1;
    }
    assert forall|k: int| 0 <= k < parts@.len() implies base <= (#[trigger] parts@[k]).start by {
        assert(parts@[k].wf());
    }
    collect_references(parts, base, reference.as_str(), &mut edits);
    Ok(edits)
}

impl EditError {
    /// What the status line says of the error.
    pub open spec fn spec_text(self, subject: Seq<char>, uuid: Seq<char>) -> Seq<char> {
        match self {
            EditError::NotFound => subject + seq![' '] + uuid + " was not found"@,
            EditError::NoPosition => subject + seq![' '] + uuid + " has no position"@,
            EditError::NoCoordinates => subject + seq![' '] + uuid
                + " has no movable coordinates"@,
            EditError::Unreadable => "the item cannot be read"@,
            EditError::MissingX => "position is missing its x coordinate"@,
            EditError::MissingY => "position is missing its y coordinate"@,
            EditError::NoItemType => "position has no item type"@,
            EditError::NotScalar => "position contains a non-scalar value"@,
            EditError::NotTwoEnds => subject + seq![' '] + uuid
                + " does not contain exactly two endpoints"@,
            EditError::NoSize => subject + seq![' '] + uuid + " has no size vector"@,
            EditError::NotRotatable => subject + " items do not support rotation yet"@,
            EditError::BadAxis => "mirror axis must be x or y"@,
            EditError::NoReferenceValue => "Reference property has no quoted value"@,
        }
    }

    /// What the status line says of the error: `subject` is what was to be edited, such as
    /// `placed symbol` or `schematic item`.
    pub fn describe(self, subject: &str, uuid: &str) -> (r: String)
        ensures
            r@ == self.spec_text(subject@, uuid@),
    {
        let mut named = subject.to_owned();
        named.push(' ');
        named.append(uuid);
        assert(named@ =~= subject@ + seq![' '] + uuid@);
        match self {
            EditError::NotFound => crate::text::joined(named.as_str(), " was not found"),
            EditError::NoPosition => crate::text::joined(named.as_str(), " has no position"),
            EditError::NoCoordinates => crate::text::joined(
                named.as_str(),
                " has no movable coordinates",
            ),
            EditError::Unreadable => "the item cannot be read".to_owned(),
            EditError::MissingX => "position is missing its x coordinate".to_owned(),
            EditError::MissingY => "position is missing its y coordinate".to_owned(),
            EditError::NoItemType => "position has no item type".to_owned(),
            EditError::NotScalar => "position contains a non-scalar value".to_owned(),
            EditError::NotTwoEnds => crate::text::joined(
                named.as_str(),
                " does not contain exactly two endpoints",
            ),
            EditError::NoSize => crate::text::joined(named.as_str(), " has no size vector"),
            EditError::NotRotatable => crate::text::joined(
                subject,
                " items do not support rotation yet",
            ),
            EditError::BadAxis => "mirror axis must be x or y".to_owned(),
            EditError::NoReferenceValue => "Reference property has no quoted value".to_owned(),
        }
    }
}

/// Every edit keeps within the bytes from `from` up to `to`.
pub open spec fn keeps_within(edits: Seq<EditModel>, from: int, to: int) -> bool {
    forall|i: int|
        0 <= i < edits.len() ==> from <= (#[trigger] edits[i]).start && edits[i].end <= to
}

proof fn lemma_deep_within(
    blocks: Seq<Block>,
    n: nat,
    tag: Seq<char>,
    dx: Double,
    dy: Double,
    acc: Seq<EditModel>,
    from: int,
    to: int,
)
    requires
        wf_blocks(blocks),
        n <= blocks.len(),
        forall|i: int|
            0 <= i < blocks.len() ==> from <= (#[trigger] blocks[i]).start && blocks[i].end <= to,
        keeps_within(acc, from, to),
    ensures
        deep_edits(blocks, n, tag, dx, dy, Ok(acc)) matches Ok(edits) ==> keeps_within(
            edits,
            from,
            to,
        ),
    decreases blocks, n,
{
    if n > 0 {
        lemma_deep_within(blocks, (n - 1) as nat, tag, dx, dy, acc, from, to);
        let b = blocks[n - 1];
        assert(b.wf());
        if let Ok(before) = deep_edits(blocks, (n - 1) as nat, tag, dx, dy, Ok(acc)) {
            let own = if b.spec_is_a(tag) {
                with_edit(Ok(before), moved_point(b, dx, dy))
            } else {
                Ok(before)
            };
            if let Ok(edits) = own {
                assert(keeps_within(edits, from, to));
                assert forall|i: int| 0 <= i < b.children@.len() implies from <= (
                #[trigger] b.children@[i]).start && b.children@[i].end <= to by {
                    assert(b.children@[i].wf());
                }
                assert forall|i: int| 0 <= i < b.children@.len() implies (
                #[trigger] b.children@[i]).wf() by {}
                lemma_deep_within(b.children@, b.children@.len(), tag, dx, dy, edits, from, to);
            }
        }
    }
}

proof fn lemma_field_within(
    blocks: Seq<Block>,
    n: nat,
    dx: Double,
    dy: Double,
    acc: Seq<EditModel>,
    from: int,
    to: int,
)
    requires
        n <= blocks.len(),
        forall|i: int|
            0 <= i < blocks.len() ==> from <= (#[trigger] blocks[i]).start && blocks[i].end <= to,
        keeps_within(acc, from, to),
    ensures
        field_edits(blocks, n, dx, dy, Ok(acc)) matches Ok(edits) ==> keeps_within(
            edits,
            from,
            to,
        ),
    decreases n,
{
    if n > 0 {
        lemma_field_within(blocks, (n - 1) as nat, dx, dy, acc, from, to);
        assert(from <= blocks[n - 1].start);
    }
}

proof fn lemma_symbol_within(
    parts: Seq<Block>,
    n: nat,
    dx: Double,
    dy: Double,
    from: int,
    to: int,
)
    requires
        wf_blocks(parts),
        n <= parts.len(),
        forall|i: int|
            0 <= i < parts.len() ==> from <= (#[trigger] parts[i]).start && parts[i].end <= to,
    ensures
        symbol_edits(parts, n, dx, dy) matches Ok(edits) ==> keeps_within(edits, from, to),
    decreases n,
{
    if n > 0 {
        lemma_symbol_within(parts, (n - 1) as nat, dx, dy, from, to);
        let b = parts[n - 1];
        assert(b.wf());
        if let Ok(before) = symbol_edits(parts, (n - 1) as nat, dx, dy) {
            assert forall|i: int| 0 <= i < b.children@.len() implies from <= (
            #[trigger] b.children@[i]).start && b.children@[i].end <= to by {
                assert(b.children@[i].wf());
            }
            lemma_field_within(b.children@, b.children@.len(), dx, dy, before, from, to);
        }
    }
}

proof fn lemma_found_item(items: Seq<Block>, uuid: Seq<char>, from: nat)
    ensures
        item_from(items, uuid, from) matches Some(i) ==> from <= i < items.len()
            && items[i].spec_owns(uuid),
    decreases items.len() - from,
{
    if from < items.len() && !items[from as int].spec_owns(uuid) {
        lemma_found_item(items, uuid, from + 1);
    }
}

proof fn lemma_found_of_kind(items: Seq<Block>, tag: Seq<char>, uuid: Seq<char>, from: nat)
    ensures
        item_of_kind_from(items, tag, uuid, from) matches Some(i) ==> from <= i < items.len()
            && items[i].spec_owns(uuid) && items[i].spec_is_a(tag),
    decreases items.len() - from,
{
    if from < items.len() && !(items[from as int].spec_is_a(tag) && items[from as int].spec_owns(
        uuid,
    )) {
        lemma_found_of_kind(items, tag, uuid, from + 1);
    }
}

/// Moving an item changes no byte outside an item that has its identifier.
pub proof fn item_move_keeps_the_rest(
    items: Seq<Block>,
    uuid: Seq<char>,
    dx: Double,
    dy: Double,
)
    requires
        wf_blocks(items),
    ensures
        item_move(items, uuid, dx, dy) matches Ok(edits) ==> edits.len() > 0 && exists|i: int|
            0 <= i < items.len() && (#[trigger] items[i]).spec_owns(uuid) && keeps_within(
                edits,
                items[i].start as int,
                items[i].end as int,
            ),
{
    lemma_found_item(items, uuid, 0);
    lemma_found_of_kind(items, "symbol"@, uuid, 0);
    if let Some(i) = item_from(items, uuid, 0) {
        let at = if items[i].spec_is_a("symbol"@) {
            item_of_kind_from(items, "symbol"@, uuid, 0)
        } else {
            Some(i)
        };
        if let Some(at) = at {
            let b = items[at];
            assert(b.wf());
            let parts = b.children@;
            assert forall|k: int| 0 <= k < parts.len() implies b.start <= (
            #[trigger] parts[k]).start && parts[k].end <= b.end && parts[k].wf() by {}
            let none = Seq::<EditModel>::empty();
            assert(keeps_within(none, b.start as int, b.end as int));
            lemma_symbol_within(parts, parts.len(), dx, dy, b.start as int, b.end as int);
            lemma_deep_within(
                parts,
                parts.len(),
                coordinate_tag(b),
                dx,
                dy,
                none,
                b.start as int,
                b.end as int,
            );
        }
    }
}

/// Every block lies within the bytes from `from` up to `to`.
spec fn all_within(blocks: Seq<Block>, from: int, to: int) -> bool {
    forall|i: int|
        0 <= i < blocks.len() ==> from <= (#[trigger] blocks[i]).start && blocks[i].end <= to
}

proof fn lemma_found_within(
    blocks: Seq<Block>,
    n: nat,
    tag: Seq<char>,
    limit: nat,
    acc: Seq<Block>,
    from: int,
    to: int,
)
    requires
        wf_blocks(blocks),
        n <= blocks.len(),
        all_within(blocks, from, to),
        all_within(acc, from, to),
    ensures
        all_within(deep_found(blocks, n, tag, limit, acc), from, to),
    decreases blocks, n,
{
    if n > 0 {
        lemma_found_within(blocks, (n - 1) as nat, tag, limit, acc, from, to);
        let before = deep_found(blocks, (n - 1) as nat, tag, limit, acc);
        let b = blocks[n - 1];
        assert(b.wf());
        let own = if before.len() < limit && b.spec_is_a(tag) {
            before.push(b)
        } else {
            before
        };
        assert(all_within(own, from, to));
        assert forall|i: int| 0 <= i < b.children@.len() implies from <= (
        #[trigger] b.children@[i]).start && b.children@[i].end <= to by {
            assert(b.children@[i].wf());
        }
        lemma_found_within(b.children@, b.children@.len(), tag, limit, own, from, to);
    }
}

proof fn lemma_found_child(blocks: Seq<Block>, tag: Seq<char>, from: nat)
    ensures
        child_from(blocks, tag, from) matches Some(i) ==> from <= i < blocks.len(),
    decreases blocks.len() - from,
{
    if from < blocks.len() && !blocks[from as int].spec_is_a(tag) {
        lemma_found_child(blocks, tag, from + 1);
    }
}

/// Moving the ends of a wire changes no byte outside an item that has its identifier.
pub proof fn wire_move_keeps_the_rest(
    items: Seq<Block>,
    uuid: Seq<char>,
    move_start: bool,
    move_end: bool,
    dx: Double,
    dy: Double,
)
    requires
        wf_blocks(items),
        move_start || move_end,
    ensures
        wire_move(items, uuid, move_start, move_end, dx, dy) matches Ok(edits) ==> edits.len() > 0
            && exists|i: int|
            0 <= i < items.len() && (#[trigger] items[i]).spec_owns(uuid) && keeps_within(
                edits,
                items[i].start as int,
                items[i].end as int,
            ),
{
    if move_start && move_end {
        item_move_keeps_the_rest(items, uuid, dx, dy);
    } else {
        lemma_found_of_kind(items, "wire"@, uuid, 0);
        if let Some(i) = item_of_kind_from(items, "wire"@, uuid, 0) {
            let b = items[i];
            assert(b.wf());
            let parts = b.children@;
            let from = b.start as int;
            let to = b.end as int;
            let none = Seq::<Block>::empty();
            assert(all_within(none, from, to));
            assert(all_within(parts, from, to));
            lemma_found_within(parts, parts.len(), "xy"@, 2, none, from, to);
            lemma_found_within(parts, parts.len(), "start"@, 1, none, from, to);
            lemma_found_within(parts, parts.len(), "end"@, 1, none, from, to);
            let ends = wire_ends(b);
            assert(all_within(ends, from, to));
            if ends.len() == 2 {
                assert(from <= ends[0].start && ends[0].end <= to);
                assert(from <= ends[1].start && ends[1].end <= to);
                if let Ok(edits) = wire_move(items, uuid, move_start, move_end, dx, dy) {
                    assert(keeps_within(edits, from, to));
                }
            }
        }
    }
}

/// Turning an item changes no byte outside an item that has its identifier.
pub proof fn item_turn_keeps_the_rest(items: Seq<Block>, uuid: Seq<char>)
    requires
        wf_blocks(items),
    ensures
        item_turn(items, uuid) matches Ok(edits) ==> exists|i: int|
            0 <= i < items.len() && (#[trigger] items[i]).spec_owns(uuid) && keeps_within(
                edits,
                items[i].start as int,
                items[i].end as int,
            ),
{
    lemma_found_item(items, uuid, 0);
    lemma_found_of_kind(items, "symbol"@, uuid, 0);
    lemma_found_of_kind(items, "bus_entry"@, uuid, 0);
    if let Ok(edits) = item_turn(items, uuid) {
        let i = item_from(items, uuid, 0)->0;
        let at = if items[i].spec_is_a("symbol"@) {
            item_of_kind_from(items, "symbol"@, uuid, 0)->0
        } else {
            item_of_kind_from(items, "bus_entry"@, uuid, 0)->0
        };
        let b = items[at];
        assert(b.wf());
        lemma_found_child(b.children@, "at"@, 0);
        lemma_found_child(b.children@, "size"@, 0);
        assert(b.spec_owns(uuid));
        assert(keeps_within(edits, b.start as int, b.end as int));
    }
}

/// Mirroring a symbol changes no byte outside an item that has its identifier.
pub proof fn symbol_mirror_keeps_the_rest(items: Seq<Block>, uuid: Seq<char>, axis: Seq<char>)
    requires
        wf_blocks(items),
    ensures
        symbol_mirror(items, uuid, axis) matches Ok(edits) ==> edits.len() == 1 && exists|i: int|
            0 <= i < items.len() && (#[trigger] items[i]).spec_owns(uuid) && keeps_within(
                edits,
                items[i].start as int,
                items[i].end as int,
            ),
{
    lemma_found_of_kind(items, "symbol"@, uuid, 0);
    if let Ok(edits) = symbol_mirror(items, uuid, axis) {
        let b = items[item_of_kind_from(items, "symbol"@, uuid, 0)->0];
        assert(b.wf());
        lemma_found_child(b.children@, "mirror"@, 0);
        lemma_found_child(b.children@, "at"@, 0);
        let k = match child_from(b.children@, "mirror"@, 0) {
            Some(k) => k,
            None => child_from(b.children@, "at"@, 0)->0,
        };
        assert(b.children@[k].wf());
        assert(keeps_within(edits, b.start as int, b.end as int));
    }
}

} // verus!
