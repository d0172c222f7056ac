//! Edits that give back the text that there was: moving an item there and back, and turning it four
//! times.
//!
//! The text of a document stands here as gaps with positions between them. What an edited text says
//! is read anew, so the laws speak of the blocks of every text on the way.

use vstd::prelude::*;

verus! {

/// A text with one edit made.
pub open spec fn edited(source: Seq<u8>, edit: crate::source_edit::EditModel) -> Seq<u8> {
    source.take(edit.start as int) + vstd::utf8::encode_utf8(edit.replacement) + source.skip(
        edit.end as int,
    )
}

/// A text with the first `n` edits made. They come in the order of the text and are made from the
/// last to the first, so that none moves the place of another.
pub open spec fn applied(source: Seq<u8>, edits: Seq<crate::source_edit::EditModel>, n: nat) -> Seq<
    u8,
>
    decreases n,
{
    if n == 0 {
        source
    } else {
        applied(edited(source, edits[n - 1]), edits, (n - 1) as nat)
    }
}

/// The first `n` of the texts, each with a gap before it, and the gap that follows.
pub open spec fn pieced(gaps: Seq<Seq<u8>>, texts: Seq<Seq<u8>>, n: nat) -> Seq<u8>
    decreases n,
{
    if n == 0 {
        gaps[0]
    } else {
        pieced(gaps, texts, (n - 1) as nat) + texts[n - 1] + gaps[n as int]
    }
}

/// The edits write `news` in the place of the first `n` texts.
pub open spec fn writes(
    edits: Seq<crate::source_edit::EditModel>,
    gaps: Seq<Seq<u8>>,
    texts: Seq<Seq<u8>>,
    news: Seq<Seq<u8>>,
    n: nat,
) -> bool {
    forall|i: int|
        0 <= i < n ==> {
            let start = pieced(gaps, texts, i as nat).len();
            &&& (#[trigger] edits[i]).start == start
            &&& edits[i].end == start + texts[i].len()
            &&& vstd::utf8::encode_utf8(edits[i].replacement) == news[i]
        }
}

proof fn lemma_applied(
    edits: Seq<crate::source_edit::EditModel>,
    gaps: Seq<Seq<u8>>,
    texts: Seq<Seq<u8>>,
    news: Seq<Seq<u8>>,
    n: nat,
    tail: Seq<u8>,
)
    requires
        writes(edits, gaps, texts, news, n),
    ensures
        applied(pieced(gaps, texts, n) + tail, edits, n) == pieced(gaps, news, n) + tail,
    decreases n,
{
    if n > 0 {
        let before = pieced(gaps, texts, (n - 1) as nat);
        let source = pieced(gaps, texts, n) + tail;
        let rest = news[n - 1] + gaps[n as int] + tail;
        let edit = edits[n - 1];
        assert(source.take(edit.start as int) =~= before);
        assert(source.skip(edit.end as int) =~= gaps[n as int] + tail);
        assert(edited(source, edit) =~= before + rest);
        lemma_applied(edits, gaps, texts, news, (n - 1) as nat, rest);
        assert(pieced(gaps, news, (n - 1) as nat) + rest =~= pieced(gaps, news, n) + tail);
    }
}

/// Edits that write new texts in the place of old ones turn the one document into the other.
pub proof fn edits_replace_their_texts(
    edits: Seq<crate::source_edit::EditModel>,
    gaps: Seq<Seq<u8>>,
    texts: Seq<Seq<u8>>,
    news: Seq<Seq<u8>>,
    n: nat,
)
    requires
        writes(edits, gaps, texts, news, n),
    ensures
        applied(pieced(gaps, texts, n), edits, n) == pieced(gaps, news, n),
{
    let none = Seq::<u8>::empty();
    lemma_applied(edits, gaps, texts, news, n, none);
    assert(pieced(gaps, texts, n) + none =~= pieced(gaps, texts, n));
    assert(pieced(gaps, news, n) + none =~= pieced(gaps, news, n));
}

/// `acc` followed by the blocks that begin with a word, at any depth in the first `n` blocks.
pub open spec fn tagged(
    blocks: Seq<crate::source_edit::Block>,
    n: nat,
    tag: Seq<char>,
    acc: Seq<crate::source_edit::Block>,
) -> Seq<crate::source_edit::Block>
    decreases blocks, n,
{
    if n == 0 || n > blocks.len() {
        acc
    } else {
        let before = tagged(blocks, (n - 1) as nat, tag, acc);
        let b = blocks[n - 1];
        let own = if b.spec_is_a(tag) {
            before.push(b)
        } else {
            before
        };
        tagged(b.children@, b.children@.len(), tag, own)
    }
}

/// `acc` followed by the positions that stand directly in the first `n` blocks.
pub open spec fn field_positions(
    blocks: Seq<crate::source_edit::Block>,
    n: nat,
    acc: Seq<crate::source_edit::Block>,
) -> Seq<crate::source_edit::Block>
    decreases n,
{
    if n == 0 {
        acc
    } else {
        let before = field_positions(blocks, (n - 1) as nat, acc);
        if blocks[n - 1].spec_is_a("at"@) {
            before.push(blocks[n - 1])
        } else {
            before
        }
    }
}

/// The positions of a symbol and of its fields, from the first `n` of its parts.
pub open spec fn symbol_positions(parts: Seq<crate::source_edit::Block>, n: nat) -> Seq<
    crate::source_edit::Block,
>
    decreases n,
{
    if n == 0 {
        Seq::empty()
    } else {
        let before = symbol_positions(parts, (n - 1) as nat);
        let b = parts[n - 1];
        if b.spec_is_a("at"@) {
            before.push(b)
        } else if b.spec_is_a("property"@) {
            field_positions(b.children@, b.children@.len(), before)
        } else {
            before
        }
    }
}

/// All blocks can be read.
pub open spec fn all_readable(blocks: Seq<crate::source_edit::Block>) -> bool {
    forall|i: int| 0 <= i < blocks.len() ==> (#[trigger] blocks[i]).node is Some
}

/// The parts of a symbol and of its fields can be read.
pub open spec fn symbol_readable(parts: Seq<crate::source_edit::Block>) -> bool {
    &&& all_readable(parts)
    &&& forall|i: int|
        0 <= i < parts.len() && (#[trigger] parts[i]).spec_is_a("property"@) ==> all_readable(
            parts[i].children@,
        )
}

/// The edits move the positions, one each.
pub open spec fn moves(
    positions: Seq<crate::source_edit::Block>,
    edits: Seq<crate::source_edit::EditModel>,
    dx: crate::double::Double,
    dy: crate::double::Double,
) -> bool {
    &&& edits.len() == positions.len()
    &&& forall|i: int|
        0 <= i < positions.len() ==> crate::source_edit::moved_point(
            #[trigger] positions[i],
            dx,
            dy,
        ) == Ok::<crate::source_edit::EditModel, crate::source_edit::EditError>(edits[i])
}

/// Every position can be moved.
pub open spec fn all_move(
    positions: Seq<crate::source_edit::Block>,
    dx: crate::double::Double,
    dy: crate::double::Double,
) -> bool {
    forall|i: int|
        0 <= i < positions.len() ==> crate::source_edit::moved_point(
            #[trigger] positions[i],
            dx,
            dy,
        ) is Ok
}

proof fn lemma_tagged_grows(
    blocks: Seq<crate::source_edit::Block>,
    n: nat,
    tag: Seq<char>,
    acc: Seq<crate::source_edit::Block>,
)
    ensures
        acc.len() <= tagged(blocks, n, tag, acc).len(),
        tagged(blocks, n, tag, acc).take(acc.len() as int) == acc,
    decreases blocks, n,
{
    if n == 0 || n > blocks.len() {
        assert(acc.take(acc.len() as int) =~= acc);
    } else {
        lemma_tagged_grows(blocks, (n - 1) as nat, tag, acc);
        let before = tagged(blocks, (n - 1) as nat, tag, acc);
        let b = blocks[n - 1];
        let own = if b.spec_is_a(tag) {
            before.push(b)
        } else {
            before
        };
        lemma_tagged_grows(b.children@, b.children@.len(), tag, own);
        let all = tagged(b.children@, b.children@.len(), tag, own);
        assert(own.take(acc.len() as int) =~= before.take(acc.len() as int));
        assert(all.take(acc.len() as int) =~= all.take(own.len() as int).take(acc.len() as int));
    }
}

proof fn lemma_all_move_before(
    positions: Seq<crate::source_edit::Block>,
    before: Seq<crate::source_edit::Block>,
    dx: crate::double::Double,
    dy: crate::double::Double,
)
    requires
        all_move(positions, dx, dy),
        before.len() <= positions.len(),
        positions.take(before.len() as int) == before,
    ensures
        all_move(before, dx, dy),
{
    assert forall|i: int| 0 <= i < before.len() implies crate::source_edit::moved_point(
        #[trigger] before[i],
        dx,
        dy,
    ) is Ok by {
        assert(before[i] == positions[i]);
    }
}

proof fn lemma_deep_moves(
    blocks: Seq<crate::source_edit::Block>,
    n: nat,
    tag: Seq<char>,
    dx: crate::double::Double,
    dy: crate::double::Double,
    acc: Seq<crate::source_edit::Block>,
    edits: Seq<crate::source_edit::EditModel>,
)
    requires
        moves(acc, edits, dx, dy),
        all_move(tagged(blocks, n, tag, acc), dx, dy),
    ensures
        crate::source_edit::deep_edits(blocks, n, tag, dx, dy, Ok(edits)) matches Ok(all) && moves(
            tagged(blocks, n, tag, acc),
            all,
            dx,
            dy,
        ),
    decreases blocks, n,
{
    if !(n == 0 || n > blocks.len()) {
        let before = tagged(blocks, (n - 1) as nat, tag, acc);
        let b = blocks[n - 1];
        let own = if b.spec_is_a(tag) {
            before.push(b)
        } else {
            before
        };
        lemma_tagged_grows(b.children@, b.children@.len(), tag, own);
        lemma_all_move_before(tagged(blocks, n, tag, acc), own, dx, dy);
        if b.spec_is_a(tag) {
            assert(own.take(before.len() as int) =~= before);
            lemma_all_move_before(own, before, dx, dy);
        }
        lemma_deep_moves(blocks, (n - 1) as nat, tag, dx, dy, acc, edits);
        let made = crate::source_edit::deep_edits(blocks, (n - 1) as nat, tag, dx, dy, Ok(edits));
        let mut so_far = made->Ok_0;
        if b.spec_is_a(tag) {
            assert(own[before.len() as int] == b);
            let edit = crate::source_edit::moved_point(b, dx, dy)->Ok_0;
            assert(moves(own, so_far.push(edit), dx, dy)) by {
                assert forall|i: int| 0 <= i < own.len() implies crate::source_edit::moved_point(
                    #[trigger] own[i],
                    dx,
                    dy,
                ) == Ok::<crate::source_edit::EditModel, crate::source_edit::EditError>(
                    so_far.push(edit)[i],
                ) by {
                    if i < before.len() {
                        assert(own[i] == before[i]);
                    }
                }
            }
            so_far = so_far.push(edit);
        }
        lemma_deep_moves(b.children@, b.children@.len(), tag, dx, dy, own, so_far);
    }
}

proof fn lemma_fields_grow(
    blocks: Seq<crate::source_edit::Block>,
    n: nat,
    acc: Seq<crate::source_edit::Block>,
)
    ensures
        acc.len() <= field_positions(blocks, n, acc).len(),
        field_positions(blocks, n, acc).take(acc.len() as int) == acc,
    decreases n,
{
    if n == 0 {
        assert(acc.take(acc.len() as int) =~= acc);
    } else {
        lemma_fields_grow(blocks, (n - 1) as nat, acc);
        let before = field_positions(blocks, (n - 1) as nat, acc);
        assert(field_positions(blocks, n, acc).take(acc.len() as int) =~= before.take(
            acc.len() as int,
        ));
    }
}

proof fn lemma_one_more(
    before: Seq<crate::source_edit::Block>,
    b: crate::source_edit::Block,
    edits: Seq<crate::source_edit::EditModel>,
    dx: crate::double::Double,
    dy: crate::double::Double,
)
    requires
        moves(before, edits, dx, dy),
        crate::source_edit::moved_point(b, dx, dy) is Ok,
    ensures
        moves(
            before.push(b),
            edits.push(crate::source_edit::moved_point(b, dx, dy)->Ok_0),
            dx,
            dy,
        ),
{
    let own = before.push(b);
    let edit = crate::source_edit::moved_point(b, dx, dy)->Ok_0;
    assert forall|i: int| 0 <= i < own.len() implies crate::source_edit::moved_point(
        #[trigger] own[i],
        dx,
        dy,
    ) == Ok::<crate::source_edit::EditModel, crate::source_edit::EditError>(
        edits.push(edit)[i],
    ) by {
        if i < before.len() {
            assert(own[i] == before[i]);
        }
    }
}

proof fn lemma_fields_move(
    blocks: Seq<crate::source_edit::Block>,
    n: nat,
    dx: crate::double::Double,
    dy: crate::double::Double,
    acc: Seq<crate::source_edit::Block>,
    edits: Seq<crate::source_edit::EditModel>,
)
    requires
        n <= blocks.len(),
        all_readable(blocks),
        moves(acc, edits, dx, dy),
        all_move(field_positions(blocks, n, acc), dx, dy),
    ensures
        crate::source_edit::field_edits(blocks, n, dx, dy, Ok(edits)) matches Ok(all) && moves(
            field_positions(blocks, n, acc),
            all,
            dx,
            dy,
        ),
    decreases n,
{
    if n > 0 {
        let before = field_positions(blocks, (n - 1) as nat, acc);
        let all = field_positions(blocks, n, acc);
        let b = blocks[n - 1];
        assert(all.take(before.len() as int) =~= before);
        lemma_all_move_before(all, before, dx, dy);
        lemma_fields_move(blocks, (n - 1) as nat, dx, dy, acc, edits);
        if b.spec_is_a("at"@) {
            assert(all[before.len() as int] == b);
            let made = crate::source_edit::field_edits(
                blocks,
                (n - 1) as nat,
                dx,
                dy,
                Ok(edits),
            );
            lemma_one_more(before, b, made->Ok_0, dx, dy);
        }
    }
}

proof fn lemma_symbol_moves(
    parts: Seq<crate::source_edit::Block>,
    n: nat,
    dx: crate::double::Double,
    dy: crate::double::Double,
)
    requires
        n <= parts.len(),
        symbol_readable(parts),
        all_move(symbol_positions(parts, n), dx, dy),
    ensures
        crate::source_edit::symbol_edits(parts, n, dx, dy) matches Ok(all) && moves(
            symbol_positions(parts, n),
            all,
            dx,
            dy,
        ),
    decreases n,
{
    if n > 0 {
        let before = symbol_positions(parts, (n - 1) as nat);
        let all = symbol_positions(parts, n);
        let b = parts[n - 1];
        assert(b.node is Some);
        if b.spec_is_a("property"@) {
            lemma_fields_grow(b.children@, b.children@.len(), before);
        }
        assert(all.take(before.len() as int) =~= before);
        lemma_all_move_before(all, before, dx, dy);
        lemma_symbol_moves(parts, (n - 1) as nat, dx, dy);
        let made = crate::source_edit::symbol_edits(parts, (n - 1) as nat, dx, dy)->Ok_0;
        if b.spec_is_a("at"@) {
            assert(all[before.len() as int] == b);
            lemma_one_more(before, b, made, dx, dy);
        } else if b.spec_is_a("property"@) {
            lemma_fields_move(b.children@, b.children@.len(), dx, dy, before, made);
        }
    }
}

/// The positions that a move of an item writes, in the order of the text; none where the item
/// cannot be found or read.
pub open spec fn positions_of(items: Seq<crate::source_edit::Block>, uuid: Seq<char>) -> Seq<
    crate::source_edit::Block,
> {
    match crate::source_edit::item_from(items, uuid, 0) {
        None => Seq::empty(),
        Some(i) => if items[i].spec_is_a("symbol"@) {
            match crate::source_edit::item_of_kind_from(items, "symbol"@, uuid, 0) {
                Some(k) if symbol_readable(items[k].children@) => symbol_positions(
                    items[k].children@,
                    items[k].children@.len(),
                ),
                _ => Seq::empty(),
            }
        } else {
            tagged(
                items[i].children@,
                items[i].children@.len(),
                crate::source_edit::coordinate_tag(items[i]),
                Seq::empty(),
            )
        },
    }
}

/// An item with positions that can all be moved is moved by moving each of them.
pub proof fn an_item_moves_with_its_positions(
    items: Seq<crate::source_edit::Block>,
    uuid: Seq<char>,
    dx: crate::double::Double,
    dy: crate::double::Double,
)
    requires
        positions_of(items, uuid).len() > 0,
        all_move(positions_of(items, uuid), dx, dy),
    ensures
        crate::source_edit::item_move(items, uuid, dx, dy) matches Ok(edits) && moves(
            positions_of(items, uuid),
            edits,
            dx,
            dy,
        ),
{
    let i = crate::source_edit::item_from(items, uuid, 0)->0;
    if items[i].spec_is_a("symbol"@) {
        let k = crate::source_edit::item_of_kind_from(items, "symbol"@, uuid, 0)->0;
        let parts = items[k].children@;
        lemma_symbol_moves(parts, parts.len(), dx, dy);
    } else {
        let parts = items[i].children@;
        let none = Seq::<crate::source_edit::Block>::empty();
        let nothing = Seq::<crate::source_edit::EditModel>::empty();
        assert(moves(none, nothing, dx, dy));
        lemma_deep_moves(
            parts,
            parts.len(),
            crate::source_edit::coordinate_tag(items[i]),
            dx,
            dy,
            none,
            nothing,
        );
    }
}

/// A position as it is written: the word that it begins with, so many ten-thousandths across and
/// down, and what follows.
pub ghost struct Written {
    pub head: Seq<char>,
    pub x: int,
    pub y: int,
    pub rest: Seq<char>,
}

impl Written {
    /// The position, moved.
    pub open spec fn moved(self, dx: int, dy: int) -> Written {
        Written { x: self.x + dx, y: self.y + dy, ..self }
    }

    /// The bytes of the position.
    pub open spec fn bytes(self) -> Seq<u8> {
        vstd::utf8::encode_utf8(
            crate::printing::position_text(self.head, self.x, self.y, self.rest),
        )
    }
}

/// The bytes of positions that are all moved.
pub open spec fn written_bytes(at: Seq<Written>, dx: int, dy: int) -> Seq<Seq<u8>> {
    Seq::new(at.len(), |i: int| at[i].moved(dx, dy).bytes())
}

/// The text of a document with positions between its gaps, all moved.
pub open spec fn document(gaps: Seq<Seq<u8>>, at: Seq<Written>, dx: int, dy: int) -> Seq<u8> {
    pieced(gaps, written_bytes(at, dx, dy), at.len())
}

/// The blocks are what that document reads as: the positions of the item are those between the gaps,
/// where they stand, and each reads as it is written.
pub open spec fn reads_as(
    items: Seq<crate::source_edit::Block>,
    uuid: Seq<char>,
    gaps: Seq<Seq<u8>>,
    at: Seq<Written>,
    dx: int,
    dy: int,
) -> bool {
    let positions = positions_of(items, uuid);
    let texts = written_bytes(at, dx, dy);
    &&& positions.len() == at.len()
    &&& forall|i: int|
        0 <= i < at.len() ==> {
            let b = #[trigger] positions[i];
            let start = pieced(gaps, texts, i as nat).len();
            &&& b.start == start
            &&& b.end == start + texts[i].len()
            &&& crate::printing::has_position(
                b,
                at[i].head,
                at[i].x + dx,
                at[i].y + dy,
                at[i].rest,
            )
        }
}

/// All positions lie on a schematic.
pub open spec fn all_in_schematic(at: Seq<Written>) -> bool {
    forall|i: int|
        0 <= i < at.len() ==> crate::printing::in_schematic((#[trigger] at[i]).x)
            && crate::printing::in_schematic(at[i].y)
}

/// Moving an item and moving it back gives back the whole text of the document. The first move
/// writes every position of the item moved, and nothing else; the second, on what that text reads
/// as, every position as it was.
pub proof fn moving_back_restores_the_document(
    items: Seq<crate::source_edit::Block>,
    moved: Seq<crate::source_edit::Block>,
    uuid: Seq<char>,
    gaps: Seq<Seq<u8>>,
    at: Seq<Written>,
    dx: crate::double::Double,
    dy: crate::double::Double,
    k: int,
    l: int,
)
    requires
        at.len() > 0,
        all_in_schematic(at),
        crate::printing::in_schematic(k) && crate::printing::in_schematic(l),
        crate::printing::is_reading(dx, k),
        crate::printing::is_reading(dy, l),
        reads_as(items, uuid, gaps, at, 0, 0),
        reads_as(moved, uuid, gaps, at, k, l),
    ensures
        crate::source_edit::item_move(items, uuid, dx, dy) matches Ok(edits) && applied(
            document(gaps, at, 0, 0),
            edits,
            edits.len(),
        ) == document(gaps, at, k, l),
        crate::source_edit::item_move(moved, uuid, dx.spec_neg(), dy.spec_neg()) matches Ok(edits)
            && applied(document(gaps, at, k, l), edits, edits.len()) == document(gaps, at, 0, 0),
{
    let there = positions_of(items, uuid);
    let back = positions_of(moved, uuid);
    let old = written_bytes(at, 0, 0);
    let new = written_bytes(at, k, l);
    assert forall|i: int| 0 <= i < at.len() implies {
        let b = #[trigger] there[i];
        let c = back[i];
        let p = at[i];
        &&& crate::source_edit::moved_point(b, dx, dy) == Ok::<
            crate::source_edit::EditModel,
            crate::source_edit::EditError,
        >(
            crate::source_edit::replaced(
                b,
                crate::printing::position_text(p.head, p.x + k, p.y + l, p.rest),
            ),
        )
        &&& crate::source_edit::moved_point(c, dx.spec_neg(), dy.spec_neg()) == Ok::<
            crate::source_edit::EditModel,
            crate::source_edit::EditError,
        >(
            crate::source_edit::replaced(
                c,
                crate::printing::position_text(p.head, p.x, p.y, p.rest),
            ),
        )
    } by {
        let p = at[i];
        let c = back[i];
        crate::printing::moving_back_restores_a_position(
            there[i],
            c,
            p.head,
            p.rest,
            p.x,
            p.y,
            dx,
            dy,
            k,
            l,
        );
    }
    assert forall|i: int| 0 <= i < back.len() implies crate::source_edit::moved_point(
        #[trigger] back[i],
        dx.spec_neg(),
        dy.spec_neg(),
    ) is Ok by {
        assert(there[i] == there[i]);
    }
    an_item_moves_with_its_positions(items, uuid, dx, dy);
    an_item_moves_with_its_positions(moved, uuid, dx.spec_neg(), dy.spec_neg());
    let first = crate::source_edit::item_move(items, uuid, dx, dy)->Ok_0;
    let second = crate::source_edit::item_move(moved, uuid, dx.spec_neg(), dy.spec_neg())->Ok_0;
    assert(writes(first, gaps, old, new, at.len())) by {
        assert forall|i: int| 0 <= i < at.len() implies {
            let start = pieced(gaps, old, i as nat).len();
            &&& (#[trigger] first[i]).start == start
            &&& first[i].end == start + old[i].len()
            &&& vstd::utf8::encode_utf8(first[i].replacement) == new[i]
        } by {
            let b = there[i];
        }
    }
    assert(writes(second, gaps, new, old, at.len())) by {
        assert forall|i: int| 0 <= i < at.len() implies {
            let start = pieced(gaps, new, i as nat).len();
            &&& (#[trigger] second[i]).start == start
            &&& second[i].end == start + new[i].len()
            &&& vstd::utf8::encode_utf8(second[i].replacement) == old[i]
        } by {
            let b = there[i];
            let c = back[i];
        }
    }
    edits_replace_their_texts(first, gaps, old, new, at.len());
    edits_replace_their_texts(second, gaps, new, old, at.len());
}

/// The block that a quarter turn of an item writes: the position of a symbol, or the size of a bus
/// entry.
pub open spec fn turning_block(items: Seq<crate::source_edit::Block>, uuid: Seq<char>) -> Option<
    crate::source_edit::Block,
> {
    match crate::source_edit::item_from(items, uuid, 0) {
        None => None,
        Some(i) => if items[i].spec_is_a("symbol"@) {
            child_of_kind(items, "symbol"@, uuid, "at"@)
        } else if items[i].spec_is_a("bus_entry"@) {
            child_of_kind(items, "bus_entry"@, uuid, "size"@)
        } else {
            None
        },
    }
}

/// The first part that begins with `part`, of the first item of the kind with the identifier.
pub open spec fn child_of_kind(
    items: Seq<crate::source_edit::Block>,
    kind: Seq<char>,
    uuid: Seq<char>,
    part: Seq<char>,
) -> Option<crate::source_edit::Block> {
    match crate::source_edit::item_of_kind_from(items, kind, uuid, 0) {
        None => None,
        Some(i) => match crate::source_edit::child_from(items[i].children@, part, 0) {
            None => None,
            Some(k) => Some(items[i].children@[k]),
        },
    }
}

/// An item is a symbol.
pub open spec fn is_symbol(items: Seq<crate::source_edit::Block>, uuid: Seq<char>) -> bool {
    crate::source_edit::item_from(items, uuid, 0) matches Some(i) && items[i].spec_is_a("symbol"@)
}

/// What a quarter turn writes, in ten-thousandths: a position with an angle, or a size.
pub ghost enum Turned {
    Placement(int, int, int),
    Size(int, int),
}

impl Turned {
    /// A quarter further on.
    pub open spec fn next(self) -> Turned {
        match self {
            Turned::Placement(x, y, a) => Turned::Placement(
                x,
                y,
                crate::printing::after_quarter(a),
            ),
            Turned::Size(x, y) => Turned::Size(-y, x),
        }
    }

    pub open spec fn wf(self) -> bool {
        match self {
            Turned::Placement(x, y, a) => crate::printing::in_schematic(x)
                && crate::printing::in_schematic(y) && 0 <= a < 3600000,
            Turned::Size(x, y) => crate::printing::in_schematic(x)
                && crate::printing::in_schematic(y),
        }
    }

    /// How it is written.
    pub open spec fn text(self) -> Seq<char> {
        match self {
            Turned::Placement(x, y, a) => "(at "@ + crate::printing::units_text(x) + seq![' ']
                + crate::printing::units_text(y) + seq![' '] + crate::printing::units_text(a)
                + seq![')'],
            Turned::Size(x, y) => "(size "@ + crate::printing::units_text(x) + seq![' ']
                + crate::printing::units_text(y) + seq![')'],
        }
    }

    /// The bytes of it.
    pub open spec fn bytes(self) -> Seq<u8> {
        vstd::utf8::encode_utf8(self.text())
    }

    /// A block reads as it.
    pub open spec fn is_read_from(self, b: crate::source_edit::Block) -> bool {
        match self {
            Turned::Placement(x, y, a) => crate::printing::has_placement(b, x, y, a),
            Turned::Size(x, y) => crate::printing::has_pair(b, x, y),
        }
    }
}

/// The blocks are what the text reads as: the item is of the kind, and what a quarter turn of it
/// writes stands between the two gaps.
pub open spec fn turns_from(
    items: Seq<crate::source_edit::Block>,
    uuid: Seq<char>,
    before: Seq<u8>,
    at: Turned,
) -> bool {
    &&& is_symbol(items, uuid) == (at is Placement)
    &&& turning_block(items, uuid) matches Some(b) && {
        &&& b.start == before.len()
        &&& b.end == before.len() + at.bytes().len()
        &&& at.is_read_from(b)
    }
}

/// A quarter turn of an item writes exactly what follows, and nothing else.
pub proof fn a_turn_changes_the_document(
    items: Seq<crate::source_edit::Block>,
    uuid: Seq<char>,
    before: Seq<u8>,
    at: Turned,
    after: Seq<u8>,
)
    requires
        at.wf(),
        turns_from(items, uuid, before, at),
    ensures
        crate::source_edit::item_turn(items, uuid) matches Ok(edits) && applied(
            before + at.bytes() + after,
            edits,
            edits.len(),
        ) == before + at.next().bytes() + after,
{
    let i = crate::source_edit::item_from(items, uuid, 0)->0;
    let b = turning_block(items, uuid)->0;
    match at {
        Turned::Placement(x, y, a) => {
            crate::printing::symbol_turns_are_written_exactly(b, x, y, a);
        },
        Turned::Size(x, y) => {
            crate::printing::size_turns_are_written_exactly(b, x, y);
        },
    }
    let edits = crate::source_edit::item_turn(items, uuid)->Ok_0;
    let source = before + at.bytes() + after;
    assert(edits =~= seq![crate::source_edit::replaced(b, at.next().text())]);
    assert(source.take(before.len() as int) =~= before);
    assert(source.skip((before.len() + at.bytes().len()) as int) =~= after);
    reveal_with_fuel(applied, 2);
}

proof fn lemma_four_turns(at: Turned)
    requires
        at.wf(),
    ensures
        at.next().wf(),
        at.next().next().wf(),
        at.next().next().next().wf(),
        at.next().next().next().next() == at,
{
}

/// Four quarter turns of an item give back the whole text of the document, each made on what the
/// text before it reads as.
pub proof fn four_turns_restore_the_document(
    items: Seq<crate::source_edit::Block>,
    once: Seq<crate::source_edit::Block>,
    twice: Seq<crate::source_edit::Block>,
    thrice: Seq<crate::source_edit::Block>,
    uuid: Seq<char>,
    before: Seq<u8>,
    at: Turned,
    after: Seq<u8>,
)
    requires
        at.wf(),
        turns_from(items, uuid, before, at),
        turns_from(once, uuid, before, at.next()),
        turns_from(twice, uuid, before, at.next().next()),
        turns_from(thrice, uuid, before, at.next().next().next()),
    ensures
        crate::source_edit::item_turn(items, uuid) matches Ok(edits) && applied(
            before + at.bytes() + after,
            edits,
            edits.len(),
        ) == before + at.next().bytes() + after,
        crate::source_edit::item_turn(once, uuid) matches Ok(edits) && applied(
            before + at.next().bytes() + after,
            edits,
            edits.len(),
        ) == before + at.next().next().bytes() + after,
        crate::source_edit::item_turn(twice, uuid) matches Ok(edits) && applied(
            before + at.next().next().bytes() + after,
            edits,
            edits.len(),
        ) == before + at.next().next().next().bytes() + after,
        crate::source_edit::item_turn(thrice, uuid) matches Ok(edits) && applied(
            before + at.next().next().next().bytes() + after,
            edits,
            edits.len(),
        ) == before + at.bytes() + after,
{
    lemma_four_turns(at);
    let one = at.next();
    let two = one.next();
    let three = two.next();
    a_turn_changes_the_document(items, uuid, before, at, after);
    a_turn_changes_the_document(once, uuid, before, one, after);
    a_turn_changes_the_document(twice, uuid, before, two, after);
    a_turn_changes_the_document(thrice, uuid, before, three, after);
}

/// No item that is not there is moved or turned, and none but symbols and bus entries is turned.
pub proof fn other_items_are_refused(
    items: Seq<crate::source_edit::Block>,
    uuid: Seq<char>,
    dx: crate::double::Double,
    dy: crate::double::Double,
)
    ensures
        crate::source_edit::item_from(items, uuid, 0) is None ==> crate::source_edit::item_move(
            items,
            uuid,
            dx,
            dy,
        ) is Err && crate::source_edit::item_turn(items, uuid) is Err,
        crate::source_edit::item_from(items, uuid, 0) matches Some(i) && !items[i].spec_is_a(
            "symbol"@,
        ) && !items[i].spec_is_a("bus_entry"@) ==> crate::source_edit::item_turn(
            items,
            uuid,
        ) is Err,
{
}

} // verus!
