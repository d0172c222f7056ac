//! How far an edit of one item reaches: what moves with it, what it is turned by, and what stays.

use crate::double::Double;
use crate::source_edit::Block;
use crate::source_edit::EditError;
use crate::source_edit::EditModel;
use vstd::prelude::*;

verus! {

/// The block is one of `blocks` or lies in one of them, at any depth.
#[verifier::opaque]
pub open spec fn lies_in(blocks: Seq<Block>, c: Block) -> bool
    decreases blocks,
{
    exists|k: int|
        0 <= k < blocks.len() && (#[trigger] blocks[k] == c || lies_in(blocks[k].children@, c))
}

/// The edit writes the position in the block anew: the same word, the first number larger by `dx`
/// and the second by `dy`, and whatever follows them as it is.
#[verifier::opaque]
pub open spec fn is_moved(e: EditModel, b: Block, dx: Double, dy: Double) -> bool {
    &&& e.start == b.start
    &&& e.end == b.end
    &&& b.node is Some
    &&& b.node->0@.head() is Some
    &&& b.node->0@.part_number(1) is Some
    &&& b.node->0@.part_number(2) is Some
    &&& crate::source_edit::trailing(b.node->0@, 3, b.node->0@.items().len() as int) is Some
    &&& e.replacement == seq!['('] + b.node->0@.head()->0 + seq![' ']
        + crate::geometry::coord_text((b.node->0@.part_number(1)->0).spec_sum(dx)) + seq![' ']
        + crate::geometry::coord_text((b.node->0@.part_number(2)->0).spec_sum(dy))
        + crate::source_edit::trailing(b.node->0@, 3, b.node->0@.items().len() as int)->0
        + seq![')']
}

/// The edit moves a position that begins with the word, somewhere in the blocks.
pub open spec fn moves_one_in(
    e: EditModel,
    blocks: Seq<Block>,
    tag: Seq<char>,
    dx: Double,
    dy: Double,
) -> bool {
    exists|c: Block| #[trigger]
        lies_in(blocks, c) && c.spec_is_a(tag) && is_moved(e, c, dx, dy)
}

proof fn lemma_lies(blocks: Seq<Block>, n: nat, c: Block)
    requires
        0 < n <= blocks.len(),
    ensures
        lies_in(blocks.take(n as int), c) <==> {
            ||| lies_in(blocks.take(n - 1), c)
            ||| blocks[n - 1] == c
            ||| lies_in(blocks[n - 1].children@, c)
        },
{
    reveal(lies_in);
    let these = blocks.take(n as int);
    let earlier = blocks.take(n - 1);
    assert(these[n - 1] == blocks[n - 1]);
    if lies_in(these, c) {
        let k = choose|k: int|
            0 <= k < these.len() && (#[trigger] these[k] == c || lies_in(these[k].children@, c));
        if k < n - 1 {
            assert(earlier[k] == these[k]);
        }
    }
    if lies_in(earlier, c) {
        let k = choose|k: int|
            0 <= k < earlier.len() && (#[trigger] earlier[k] == c || lies_in(
                earlier[k].children@,
                c,
            ));
        assert(these[k] == earlier[k]);
    }
}

proof fn lemma_none_lies(c: Block)
    ensures
        !lies_in(Seq::<Block>::empty(), c),
{
    reveal(lies_in);
}

/// One of the edits moves the position in the block.
pub open spec fn moves(edits: Seq<EditModel>, b: Block, dx: Double, dy: Double) -> bool {
    exists|k: int| 0 <= k < edits.len() && is_moved(#[trigger] edits[k], b, dx, dy)
}

proof fn lemma_moves_stay(a: Seq<EditModel>, b: Seq<EditModel>, c: Block, dx: Double, dy: Double)
    requires
        a.len() <= b.len(),
        a == b.take(a.len() as int),
        moves(a, c, dx, dy),
    ensures
        moves(b, c, dx, dy),
{
    let k = choose|k: int| 0 <= k < a.len() && is_moved(#[trigger] a[k], c, dx, dy);
    assert(b.take(a.len() as int)[k] == b[k]);
}

/// `b` goes on where `a` ends.
spec fn goes_on(a: Seq<EditModel>, b: Seq<EditModel>) -> bool {
    a.len() <= b.len() && a == b.take(a.len() as int)
}

proof fn lemma_goes_on(a: Seq<EditModel>, b: Seq<EditModel>, c: Seq<EditModel>)
    requires
        goes_on(a, b),
        goes_on(b, c),
    ensures
        goes_on(a, c),
{
    assert(c.take(a.len() as int) =~= c.take(b.len() as int).take(a.len() as int));
}

proof fn lemma_one_more(
    before: Result<Seq<EditModel>, EditError>,
    b: Block,
    dx: Double,
    dy: Double,
)
    requires
        before is Ok,
        crate::source_edit::with_edit(before, crate::source_edit::moved_point(b, dx, dy)) is Ok,
    ensures
        ({
            let after = crate::source_edit::with_edit(
                before,
                crate::source_edit::moved_point(b, dx, dy),
            )->Ok_0;
            &&& goes_on(before->Ok_0, after)
            &&& after.len() == before->Ok_0.len() + 1
            &&& is_moved(after.last(), b, dx, dy)
            &&& moves(after, b, dx, dy)
        }),
{
    let after = crate::source_edit::with_edit(
        before,
        crate::source_edit::moved_point(b, dx, dy),
    )->Ok_0;
    reveal(is_moved);
    assert(after.take(before->Ok_0.len() as int) =~= before->Ok_0);
    assert(is_moved(after[after.len() - 1], b, dx, dy));
}

proof fn lemma_deep(
    blocks: Seq<Block>,
    n: nat,
    tag: Seq<char>,
    dx: Double,
    dy: Double,
    acc: Seq<EditModel>,
)
    requires
        n <= blocks.len(),
        crate::source_edit::deep_edits(blocks, n, tag, dx, dy, Ok(acc)) is Ok,
    ensures
        ({
            let all = crate::source_edit::deep_edits(blocks, n, tag, dx, dy, Ok(acc))->Ok_0;
            &&& goes_on(acc, all)
            &&& forall|c: Block| #[trigger]
                lies_in(blocks.take(n as int), c) && c.spec_is_a(tag) ==> moves(all, c, dx, dy)
            &&& forall|e: int|
                acc.len() <= e < all.len() ==> moves_one_in(
                    #[trigger] all[e],
                    blocks.take(n as int),
                    tag,
                    dx,
                    dy,
                )
        }),
    decreases blocks, n,
{
    let start = Ok::<Seq<EditModel>, EditError>(acc);
    let all = crate::source_edit::deep_edits(blocks, n, tag, dx, dy, start)->Ok_0;
    if n == 0 {
        assert(acc =~= acc.take(acc.len() as int));
        assert(blocks.take(0) =~= Seq::<Block>::empty());
        assert forall|c: Block| !#[trigger] lies_in(blocks.take(n as int), c) by {
            lemma_none_lies(c);
        }
    } else {
        let before = crate::source_edit::deep_edits(blocks, (n - 1) as nat, tag, dx, dy, start);
        let b = blocks[n - 1];
        lemma_deep(blocks, (n - 1) as nat, tag, dx, dy, acc);
        let own = if b.spec_is_a(tag) {
            crate::source_edit::with_edit(before, crate::source_edit::moved_point(b, dx, dy))
        } else {
            before
        };
        assert(own is Ok);
        if b.spec_is_a(tag) {
            lemma_one_more(before, b, dx, dy);
        } else {
            assert(before->Ok_0 =~= before->Ok_0.take(before->Ok_0.len() as int));
        }
        lemma_deep(b.children@, b.children@.len(), tag, dx, dy, own->Ok_0);
        assert(b.children@.take(b.children@.len() as int) =~= b.children@);
        lemma_goes_on(before->Ok_0, own->Ok_0, all);
        lemma_goes_on(acc, before->Ok_0, all);
        let these = blocks.take(n as int);
        let earlier = blocks.take(n - 1);
        assert forall|c: Block| #[trigger] lies_in(these, c) && c.spec_is_a(tag) implies moves(
            all,
            c,
            dx,
            dy,
        ) by {
            lemma_lies(blocks, n, c);
            if lies_in(earlier, c) {
                lemma_moves_stay(before->Ok_0, all, c, dx, dy);
            } else if b == c {
                lemma_moves_stay(own->Ok_0, all, c, dx, dy);
            }
        }
        assert forall|e: int| acc.len() <= e < all.len() implies moves_one_in(
            #[trigger] all[e],
            these,
            tag,
            dx,
            dy,
        ) by {
            if e < before->Ok_0.len() {
                assert(all.take(before->Ok_0.len() as int)[e] == all[e]);
                assert(moves_one_in(before->Ok_0[e], earlier, tag, dx, dy));
                let c = choose|c: Block| #[trigger]
                    lies_in(earlier, c) && c.spec_is_a(tag) && is_moved(all[e], c, dx, dy);
                lemma_lies(blocks, n, c);
            } else if e < own->Ok_0.len() {
                assert(all.take(own->Ok_0.len() as int)[e] == all[e]);
                lemma_lies(blocks, n, b);
            } else {
                assert(moves_one_in(all[e], b.children@, tag, dx, dy));
                let c = choose|c: Block| #[trigger]
                    lies_in(b.children@, c) && c.spec_is_a(tag) && is_moved(all[e], c, dx, dy);
                lemma_lies(blocks, n, c);
            }
        }
    }
}

/// The item at `i` is the first that has the identifier.
pub open spec fn is_item(items: Seq<Block>, uuid: Seq<char>, i: int) -> bool {
    &&& 0 <= i < items.len()
    &&& items[i].spec_owns(uuid)
    &&& forall|j: int| 0 <= j < i ==> !(#[trigger] items[j]).spec_owns(uuid)
}

proof fn lemma_item(items: Seq<Block>, uuid: Seq<char>, from: nat, i: int)
    requires
        is_item(items, uuid, i),
        from <= i,
    ensures
        crate::source_edit::item_from(items, uuid, from) == Some(i),
    decreases i - from,
{
    if from < i {
        assert(!items[from as int].spec_owns(uuid));
        lemma_item(items, uuid, from + 1, i);
    }
}

/// An item is moved with all that lies in it: of a wire or a bus every point, of any other item but a
/// symbol every position, at whatever depth, moves by the whole distance. Nothing else is written
/// anew.
pub proof fn items_move_with_all_they_hold(
    items: Seq<Block>,
    uuid: Seq<char>,
    i: int,
    dx: Double,
    dy: Double,
    edits: Seq<EditModel>,
)
    requires
        is_item(items, uuid, i),
        !items[i].spec_is_a("symbol"@),
        crate::source_edit::item_move(items, uuid, dx, dy) == Ok::<Seq<EditModel>, EditError>(
            edits,
        ),
    ensures
        edits.len() > 0,
        forall|c: Block| #[trigger]
            lies_in(items[i].children@, c) && c.spec_is_a(
                if items[i].spec_is_a("wire"@) || items[i].spec_is_a("bus"@) {
                    "xy"@
                } else {
                    "at"@
                },
            ) ==> moves(edits, c, dx, dy),
        forall|e: int|
            0 <= e < edits.len() ==> moves_one_in(
                #[trigger] edits[e],
                items[i].children@,
                if items[i].spec_is_a("wire"@) || items[i].spec_is_a("bus"@) {
                    "xy"@
                } else {
                    "at"@
                },
                dx,
                dy,
            ),
{
    lemma_item(items, uuid, 0, i);
    let parts = items[i].children@;
    assert(parts.take(parts.len() as int) =~= parts);
    lemma_deep(
        parts,
        parts.len(),
        crate::source_edit::coordinate_tag(items[i]),
        dx,
        dy,
        Seq::empty(),
    );
}

spec fn moves_a_field(e: EditModel, blocks: Seq<Block>, n: nat, dx: Double, dy: Double) -> bool {
    exists|k: int|
        0 <= k < n && (#[trigger] blocks[k]).spec_is_a("at"@) && is_moved(e, blocks[k], dx, dy)
}

proof fn lemma_fields(
    blocks: Seq<Block>,
    n: nat,
    dx: Double,
    dy: Double,
    acc: Seq<EditModel>,
)
    requires
        n <= blocks.len(),
        crate::source_edit::field_edits(blocks, n, dx, dy, Ok(acc)) is Ok,
    ensures
        ({
            let all = crate::source_edit::field_edits(blocks, n, dx, dy, Ok(acc))->Ok_0;
            &&& goes_on(acc, all)
            &&& forall|k: int|
                0 <= k < n && (#[trigger] blocks[k]).spec_is_a("at"@) ==> moves(
                    all,
                    blocks[k],
                    dx,
                    dy,
                )
            &&& forall|e: int|
                acc.len() <= e < all.len() ==> moves_a_field(#[trigger] all[e], blocks, n, dx, dy)
        }),
    decreases n,
{
    let start = Ok::<Seq<EditModel>, EditError>(acc);
    let all = crate::source_edit::field_edits(blocks, n, dx, dy, start)->Ok_0;
    if n == 0 {
        assert(acc =~= acc.take(acc.len() as int));
    } else {
        let before = crate::source_edit::field_edits(blocks, (n - 1) as nat, dx, dy, start);
        lemma_fields(blocks, (n - 1) as nat, dx, dy, acc);
        let b = blocks[n - 1];
        if b.spec_is_a("at"@) {
            lemma_one_more(before, b, dx, dy);
            lemma_goes_on(acc, before->Ok_0, all);
            assert forall|k: int|
                0 <= k < n && (#[trigger] blocks[k]).spec_is_a("at"@) implies moves(
                all,
                blocks[k],
                dx,
                dy,
            ) by {
                if k < n - 1 {
                    lemma_moves_stay(before->Ok_0, all, blocks[k], dx, dy);
                }
            }
            assert forall|e: int| acc.len() <= e < all.len() implies moves_a_field(
                #[trigger] all[e],
                blocks,
                n,
                dx,
                dy,
            ) by {
                if e < before->Ok_0.len() {
                    assert(all.take(before->Ok_0.len() as int)[e] == all[e]);
                    assert(moves_a_field(before->Ok_0[e], blocks, (n - 1) as nat, dx, dy));
                    let k = choose|k: int|
                        0 <= k < n - 1 && (#[trigger] blocks[k]).spec_is_a("at"@) && is_moved(
                            before->Ok_0[e],
                            blocks[k],
                            dx,
                            dy,
                        );
                    assert(blocks[k].spec_is_a("at"@));
                } else {
                    assert(blocks[n - 1].spec_is_a("at"@));
                }
            }
        } else {
            assert forall|e: int| acc.len() <= e < all.len() implies moves_a_field(
                #[trigger] all[e],
                blocks,
                n,
                dx,
                dy,
            ) by {
                assert(moves_a_field(before->Ok_0[e], blocks, (n - 1) as nat, dx, dy));
                let k = choose|k: int|
                    0 <= k < n - 1 && (#[trigger] blocks[k]).spec_is_a("at"@) && is_moved(
                        before->Ok_0[e],
                        blocks[k],
                        dx,
                        dy,
                    );
                assert(blocks[k].spec_is_a("at"@));
            }
        }
    }
}

/// The block holds a position of the symbol with these parts: its own, or that of one of its fields.
#[verifier::opaque]
pub open spec fn is_symbol_position(parts: Seq<Block>, c: Block) -> bool {
    ||| c.spec_is_a("at"@) && parts.contains(c)
    ||| c.spec_is_a("at"@) && exists|k: int|
        0 <= k < parts.len() && (#[trigger] parts[k]).spec_is_a("property"@)
            && parts[k].children@.contains(c)
}

/// The edit moves a position of the symbol with these parts.
pub open spec fn moves_one_of_symbol(e: EditModel, parts: Seq<Block>, dx: Double, dy: Double) -> bool {
    exists|c: Block| #[trigger] is_symbol_position(parts, c) && is_moved(e, c, dx, dy)
}

proof fn lemma_symbol(parts: Seq<Block>, n: nat, dx: Double, dy: Double)
    requires
        n <= parts.len(),
        crate::source_edit::symbol_edits(parts, n, dx, dy) is Ok,
    ensures
        ({
            let all = crate::source_edit::symbol_edits(parts, n, dx, dy)->Ok_0;
            &&& forall|c: Block| #[trigger]
                is_symbol_position(parts.take(n as int), c) ==> moves(all, c, dx, dy)
            &&& forall|e: int|
                0 <= e < all.len() ==> moves_one_of_symbol(
                    #[trigger] all[e],
                    parts.take(n as int),
                    dx,
                    dy,
                )
        }),
    decreases n,
{
    reveal_strlit("at");
    reveal_strlit("property");
    assert("at"@.len() == 2 && "property"@.len() == 8);
    let all = crate::source_edit::symbol_edits(parts, n, dx, dy)->Ok_0;
    if n == 0 {
        assert(parts.take(0) =~= Seq::<Block>::empty());
        reveal(is_symbol_position);
    } else {
        let before = crate::source_edit::symbol_edits(parts, (n - 1) as nat, dx, dy);
        lemma_symbol(parts, (n - 1) as nat, dx, dy);
        let b = parts[n - 1];
        let these = parts.take(n as int);
        let earlier = parts.take(n - 1);
        assert(these =~= earlier.push(b));
        if b.spec_is_a("at"@) {
            lemma_one_more(before, b, dx, dy);
        } else if b.spec_is_a("property"@) {
            lemma_fields(b.children@, b.children@.len(), dx, dy, before->Ok_0);
        } else {
            assert(all =~= all.take(all.len() as int));
        }
        assert(goes_on(before->Ok_0, all));
        assert forall|c: Block| #[trigger] is_symbol_position(these, c) implies moves(
            all,
            c,
            dx,
            dy,
        ) by {
            lemma_parts(earlier, b, c);
            if is_symbol_position(earlier, c) {
                lemma_moves_stay(before->Ok_0, all, c, dx, dy);
            } else if c != b {
                let k = choose|k: int| 0 <= k < b.children@.len() && b.children@[k] == c;
                assert(b.children@[k].spec_is_a("at"@));
            }
        }
        assert forall|e: int| 0 <= e < all.len() implies moves_one_of_symbol(
            #[trigger] all[e],
            these,
            dx,
            dy,
        ) by {
            if e < before->Ok_0.len() {
                assert(all.take(before->Ok_0.len() as int)[e] == all[e]);
                assert(moves_one_of_symbol(before->Ok_0[e], earlier, dx, dy));
                let c = choose|c: Block| #[trigger]
                    is_symbol_position(earlier, c) && is_moved(before->Ok_0[e], c, dx, dy);
                lemma_parts(earlier, b, c);
                assert(is_symbol_position(these, c));
            } else if b.spec_is_a("at"@) {
                lemma_parts(earlier, b, b);
                assert(is_symbol_position(these, b));
            } else {
                assert(moves_a_field(all[e], b.children@, b.children@.len(), dx, dy));
                let k = choose|k: int|
                    0 <= k < b.children@.len() && (#[trigger] b.children@[k]).spec_is_a("at"@)
                        && is_moved(all[e], b.children@[k], dx, dy);
                lemma_parts(earlier, b, b.children@[k]);
                assert(b.children@.contains(b.children@[k]));
                assert(is_symbol_position(these, b.children@[k]));
            }
        }
    }
}

proof fn lemma_parts(earlier: Seq<Block>, b: Block, c: Block)
    ensures
        is_symbol_position(earlier.push(b), c) <==> {
            ||| is_symbol_position(earlier, c)
            ||| c.spec_is_a("at"@) && c == b
            ||| c.spec_is_a("at"@) && b.spec_is_a("property"@) && b.children@.contains(c)
        },
{
    reveal(is_symbol_position);
    let these = earlier.push(b);
    crate::sequences::pushed_holds(earlier, b, c);
    assert(these[earlier.len() as int] == b);
    if is_symbol_position(earlier, c) && !earlier.contains(c) {
        let k = choose|k: int|
            0 <= k < earlier.len() && (#[trigger] earlier[k]).spec_is_a("property"@)
                && earlier[k].children@.contains(c);
        assert(these[k] == earlier[k]);
    }
    if is_symbol_position(these, c) && !these.contains(c) {
        let k = choose|k: int|
            0 <= k < these.len() && (#[trigger] these[k]).spec_is_a("property"@)
                && these[k].children@.contains(c);
        if k < earlier.len() {
            assert(earlier[k] == these[k]);
        }
    }
}

/// A symbol is moved with its fields: its own position and that of each of its properties move by
/// the whole distance, and nothing else is written anew.
pub proof fn symbols_move_with_their_fields(
    items: Seq<Block>,
    uuid: Seq<char>,
    i: int,
    dx: Double,
    dy: Double,
    edits: Seq<EditModel>,
)
    requires
        crate::editing::is_first_of_kind(items, "symbol"@, uuid, i),
        crate::source_edit::symbol_move(items, uuid, dx, dy) == Ok::<Seq<EditModel>, EditError>(
            edits,
        ),
    ensures
        edits.len() > 0,
        forall|c: Block| #[trigger]
            is_symbol_position(items[i].children@, c) ==> moves(edits, c, dx, dy),
        forall|e: int|
            0 <= e < edits.len() ==> moves_one_of_symbol(
                #[trigger] edits[e],
                items[i].children@,
                dx,
                dy,
            ),
{
    crate::editing::first_of_kind_is_found(items, "symbol"@, uuid, i);
    let parts = items[i].children@;
    assert(parts.take(parts.len() as int) =~= parts);
    lemma_symbol(parts, parts.len(), dx, dy);
}

/// Whatever an item is, it is moved as what it is: a symbol as a symbol, once it is the first item
/// that has its identifier.
pub proof fn symbols_are_moved_as_symbols(
    items: Seq<Block>,
    uuid: Seq<char>,
    i: int,
    dx: Double,
    dy: Double,
)
    requires
        is_item(items, uuid, i),
        items[i].spec_is_a("symbol"@),
    ensures
        crate::source_edit::item_move(items, uuid, dx, dy) == crate::source_edit::symbol_move(
            items,
            uuid,
            dx,
            dy,
        ),
{
    lemma_item(items, uuid, 0, i);
}

/// Turning a symbol leaves it where it is and turns it by ninety degrees more than it was turned.
pub proof fn symbols_turn_where_they_are(
    items: Seq<Block>,
    uuid: Seq<char>,
    i: int,
    k: int,
    x: Double,
    y: Double,
    quarter: Double,
)
    requires
        !quarter.negative && quarter.mantissa == 90 * 0x4000_0000_0000 && quarter.exponent == -46,
        is_item(items, uuid, i),
        items[i].spec_is_a("symbol"@),
        crate::editing::is_first_child(items[i].children@, "at"@, k),
        items[i].children@[k].node->0@.part_number(1) == Some(x),
        items[i].children@[k].node->0@.part_number(2) == Some(y),
    ensures
        ({
            let at = items[i].children@[k];
            let was = match at.node->0@.part_number(3) {
                Some(turn) => turn,
                None => Double::spec_zero(),
            };
            crate::source_edit::item_turn(items, uuid) == Ok::<Seq<EditModel>, EditError>(
                seq![
                    EditModel {
                        start: at.start as nat,
                        end: at.end as nat,
                        replacement: "(at "@ + crate::geometry::coord_text(x) + seq![' ']
                            + crate::geometry::coord_text(y) + seq![' ']
                            + crate::geometry::coord_text(was.spec_sum(quarter).spec_turned())
                            + seq![')'],
                    },
                ],
            )
        }),
{
    reveal_strlit("symbol");
    lemma_item(items, uuid, 0, i);
    assert(crate::editing::is_first_of_kind(items, "symbol"@, uuid, i));
    crate::editing::first_of_kind_is_found(items, "symbol"@, uuid, i);
    crate::editing::first_child_is_found(items[i].children@, "at"@, k);
    assert(quarter == crate::source_edit::quarter_turn());
}

} // verus!
