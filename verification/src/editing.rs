//! What edits of several items take along, which ends of a wire they move, and what becomes of a
//! symbol that is mirrored or copied.

use crate::double::Double;
use crate::edit_control::Transform;
use crate::source_edit::Block;
use crate::source_edit::EditError;
use crate::source_edit::EditModel;
use vstd::prelude::*;

verus! {

/// The item at `i` is the first that begins with a word and has an identifier.
pub open spec fn is_first_of_kind(
    items: Seq<Block>,
    tag: Seq<char>,
    uuid: Seq<char>,
    i: int,
) -> bool {
    &&& 0 <= i < items.len()
    &&& items[i].spec_is_a(tag) && items[i].spec_owns(uuid)
    &&& forall|j: int|
        0 <= j < i ==> !((#[trigger] items[j]).spec_is_a(tag) && items[j].spec_owns(uuid))
}

proof fn lemma_of_kind(items: Seq<Block>, tag: Seq<char>, uuid: Seq<char>, from: nat, i: int)
    requires
        is_first_of_kind(items, tag, uuid, i),
        from <= i,
    ensures
        crate::source_edit::item_of_kind_from(items, tag, uuid, from) == Some(i),
    decreases i - from,
{
    if from < i {
        assert(!(items[from as int].spec_is_a(tag) && items[from as int].spec_owns(uuid)));
        lemma_of_kind(items, tag, uuid, from + 1, i);
    }
}

/// The block at `k` is the first that begins with a word.
pub open spec fn is_first_child(blocks: Seq<Block>, tag: Seq<char>, k: int) -> bool {
    &&& 0 <= k < blocks.len()
    &&& blocks[k].spec_is_a(tag)
    &&& forall|j: int| 0 <= j < k ==> !(#[trigger] blocks[j]).spec_is_a(tag)
}

proof fn lemma_child(blocks: Seq<Block>, tag: Seq<char>, from: nat)
    requires
        from <= blocks.len(),
        forall|j: int| 0 <= j < from ==> !(#[trigger] blocks[j]).spec_is_a(tag),
    ensures
        match crate::source_edit::child_from(blocks, tag, from) {
            Some(k) => is_first_child(blocks, tag, k),
            None => forall|j: int| 0 <= j < blocks.len() ==> !(#[trigger] blocks[j]).spec_is_a(tag),
        },
    decreases blocks.len() - from,
{
    if from < blocks.len() && !blocks[from as int].spec_is_a(tag) {
        lemma_child(blocks, tag, from + 1);
    }
}

proof fn lemma_child_is(blocks: Seq<Block>, tag: Seq<char>, k: int)
    requires
        is_first_child(blocks, tag, k),
    ensures
        crate::source_edit::child_from(blocks, tag, 0) == Some(k),
{
    lemma_child(blocks, tag, 0);
    if let Some(j) = crate::source_edit::child_from(blocks, tag, 0) {
        if j < k {
            assert(!blocks[j].spec_is_a(tag));
        } else if k < j {
            assert(!blocks[k].spec_is_a(tag));
        }
    } else {
        assert(!blocks[k].spec_is_a(tag));
    }
}

/// Mirroring a symbol about the axis that it is mirrored about already takes the mirror off: its part
/// for the mirror goes, and nothing else changes. About the other axis that part is written anew.
pub proof fn mirroring_replaces_the_mirror(
    items: Seq<Block>,
    uuid: Seq<char>,
    axis: Seq<char>,
    i: int,
    k: int,
    old_axis: Seq<char>,
)
    requires
        axis == "x"@ || axis == "y"@,
        is_first_of_kind(items, "symbol"@, uuid, i),
        is_first_child(items[i].children@, "mirror"@, k),
        items[i].children@[k].node->0@.part_text(1) == Some(old_axis),
    ensures
        ({
            let mirror = items[i].children@[k];
            crate::source_edit::symbol_mirror(items, uuid, axis) == Ok::<
                Seq<EditModel>,
                EditError,
            >(
                seq![
                    EditModel {
                        start: mirror.start as nat,
                        end: mirror.end as nat,
                        replacement: if old_axis == axis {
                            Seq::empty()
                        } else {
                            "(mirror "@ + axis + seq![')']
                        },
                    },
                ],
            )
        }),
{
    lemma_of_kind(items, "symbol"@, uuid, 0, i);
    lemma_child_is(items[i].children@, "mirror"@, k);
}

/// A symbol without a mirror gets one right behind its position, and nothing of it is lost.
pub proof fn mirroring_adds_a_mirror(
    items: Seq<Block>,
    uuid: Seq<char>,
    axis: Seq<char>,
    i: int,
    k: int,
)
    requires
        axis == "x"@ || axis == "y"@,
        is_first_of_kind(items, "symbol"@, uuid, i),
        forall|j: int|
            0 <= j < items[i].children@.len() ==> !(#[trigger] items[i].children@[j]).spec_is_a(
                "mirror"@,
            ),
        is_first_child(items[i].children@, "at"@, k),
    ensures
        crate::source_edit::symbol_mirror(items, uuid, axis) matches Ok(edits) && {
            &&& edits.len() == 1
            &&& edits[0].start == items[i].children@[k].end
            &&& edits[0].end == items[i].children@[k].end
            &&& crate::text::ends(edits[0].replacement, "(mirror "@ + axis + seq![')'])
        },
{
    let parts = items[i].children@;
    lemma_of_kind(items, "symbol"@, uuid, 0, i);
    lemma_child(parts, "mirror"@, 0);
    lemma_child_is(parts, "at"@, k);
    let mark = "(mirror "@ + axis + seq![')'];
    let before = seq!['\n'] + crate::source_edit::indent_from(parts, 0);
    let text = before + "(mirror "@ + axis + seq![')'];
    assert(text =~= before + mark);
    assert(text.skip(text.len() - mark.len()) =~= mark);
}

/// No other axis can be mirrored about.
pub proof fn other_axes_are_refused(items: Seq<Block>, uuid: Seq<char>, axis: Seq<char>)
    requires
        axis.len() != 1 || (axis[0] != 'x' && axis[0] != 'y'),
    ensures
        crate::source_edit::symbol_mirror(items, uuid, axis) == Err::<Seq<EditModel>, EditError>(
            EditError::BadAxis,
        ),
{
    reveal_strlit("x");
    reveal_strlit("y");
    assert("x"@.len() == 1 && "x"@[0] == 'x');
    assert("y"@.len() == 1 && "y"@[0] == 'y');
}

/// The edits move the blocks that were found, as far as those were looked for.
spec fn moves_found(edits: Seq<EditModel>, found: Seq<Block>, dx: Double, dy: Double) -> bool {
    &&& found.len() == (if edits.len() < 2 {
        edits.len()
    } else {
        2
    })
    &&& forall|i: int|
        0 <= i < found.len() ==> crate::source_edit::moved_point(#[trigger] found[i], dx, dy) == Ok::<
            EditModel,
            EditError,
        >(edits[i])
}

proof fn lemma_moves_found(
    blocks: Seq<Block>,
    n: nat,
    tag: Seq<char>,
    dx: Double,
    dy: Double,
    edits: Seq<EditModel>,
    found: Seq<Block>,
)
    requires
        n <= blocks.len(),
        moves_found(edits, found, dx, dy),
        crate::source_edit::deep_edits(blocks, n, tag, dx, dy, Ok(edits)) is Ok,
    ensures
        moves_found(
            crate::source_edit::deep_edits(blocks, n, tag, dx, dy, Ok(edits))->Ok_0,
            crate::source_edit::deep_found(blocks, n, tag, 2, found),
            dx,
            dy,
        ),
    decreases blocks, n,
{
    if n > 0 {
        let acc = Ok::<Seq<EditModel>, EditError>(edits);
        let before = crate::source_edit::deep_edits(blocks, (n - 1) as nat, tag, dx, dy, acc);
        let seen = crate::source_edit::deep_found(blocks, (n - 1) as nat, tag, 2, found);
        let b = blocks[n - 1];
        lemma_moves_found(blocks, (n - 1) as nat, tag, dx, dy, edits, found);
        let own = if b.spec_is_a(tag) {
            crate::source_edit::with_edit(before, crate::source_edit::moved_point(b, dx, dy))
        } else {
            before
        };
        let more = if seen.len() < 2 && b.spec_is_a(tag) {
            seen.push(b)
        } else {
            seen
        };
        assert(own is Ok);
        assert(moves_found(own->Ok_0, more, dx, dy));
        lemma_moves_found(b.children@, b.children@.len(), tag, dx, dy, own->Ok_0, more);
    }
}

/// Moving a wire as a whole moves its two ends; moving its start moves the first of them alone, and
/// moving its end the second alone.
pub proof fn ends_of_a_wire_move_apart(
    items: Seq<Block>,
    uuid: Seq<char>,
    i: int,
    dx: Double,
    dy: Double,
    first: EditModel,
    second: EditModel,
)
    requires
        is_first_of_kind(items, "wire"@, uuid, i),
        crate::source_edit::item_from(items, uuid, 0) == Some(i),
        crate::source_edit::wire_move(items, uuid, true, true, dx, dy) == Ok::<
            Seq<EditModel>,
            EditError,
        >(seq![first, second]),
    ensures
        crate::source_edit::wire_move(items, uuid, true, false, dx, dy) == Ok::<
            Seq<EditModel>,
            EditError,
        >(seq![first]),
        crate::source_edit::wire_move(items, uuid, false, true, dx, dy) == Ok::<
            Seq<EditModel>,
            EditError,
        >(seq![second]),
        crate::source_edit::wire_move(items, uuid, false, false, dx, dy) == Ok::<
            Seq<EditModel>,
            EditError,
        >(Seq::empty()),
{
    reveal_strlit("wire");
    reveal_strlit("symbol");
    assert("wire"@.len() == 4 && "symbol"@.len() == 6);
    lemma_of_kind(items, "wire"@, uuid, 0, i);
    let parts = items[i].children@;
    let none = Seq::<EditModel>::empty();
    let found = crate::source_edit::deep_found(parts, parts.len(), "xy"@, 2, Seq::empty());
    assert(crate::source_edit::deep_edits(parts, parts.len(), "xy"@, dx, dy, Ok(none)) == Ok::<
        Seq<EditModel>,
        EditError,
    >(seq![first, second]));
    lemma_moves_found(parts, parts.len(), "xy"@, dx, dy, none, Seq::empty());
    assert(found.len() == 2);
    assert(seq![first, second][0] == first && seq![first, second][1] == second);
    assert(crate::source_edit::wire_ends(items[i]) == found);
    assert(none.push(first) =~= seq![first]);
    assert(none.push(second) =~= seq![second]);
}

proof fn lemma_bare(s: Seq<char>)
    ensures
        ({
            let bare = crate::source_edit::without_number(s);
            &&& bare.len() <= s.len()
            &&& bare == s.take(bare.len() as int)
            &&& forall|k: int|
                bare.len() <= k < s.len() ==> ('0' <= #[trigger] s[k] <= '9' || s[k] == '?')
            &&& bare.len() > 0 ==> !('0' <= bare.last() <= '9') && bare.last() != '?'
        }),
    decreases s.len(),
{
    if s.len() > 0 && ('0' <= s.last() <= '9' || s.last() == '?') {
        lemma_bare(s.drop_last());
        let bare = crate::source_edit::without_number(s);
        assert(s.take(bare.len() as int) =~= s.drop_last().take(bare.len() as int));
        assert forall|k: int| bare.len() <= k < s.len() implies ('0' <= #[trigger] s[k] <= '9' || s[k]
            == '?') by {
            if k < s.len() - 1 {
                assert(s.drop_last()[k] == s[k]);
            }
        }
    } else {
        assert(s.take(s.len() as int) =~= s);
    }
}

/// The reference of a copy is open: it says what the symbol is and not which, so that it is no
/// reference that another symbol could have too.
pub proof fn copies_are_not_numbered(symbol: crate::sexp::Sexp, reference: Seq<char>)
    requires
        crate::readers::reference_of(symbol) == Some(reference),
    ensures
        ({
            let open = crate::source_edit::open_reference(symbol);
            let kept = open.len() - 1;
            &&& !crate::warnings::is_named(open)
            &&& open.last() == '?'
            &&& open.drop_last() == reference.take(kept) && kept <= reference.len() && (forall|
                k: int,
            |
                kept <= k < reference.len() ==> ('0' <= #[trigger] reference[k] <= '9'
                    || reference[k] == '?')) || open.drop_last() == "U"@
        }),
{
    lemma_bare(reference);
    let bare = crate::source_edit::without_number(reference);
    let open = crate::source_edit::open_reference(symbol);
    assert(bare.push('?').drop_last() =~= bare);
    assert((bare + seq!['?']).drop_last() =~= bare);
    assert(("U"@ + seq!['?']).drop_last() =~= "U"@);
    assert(open.last() == '?');
}

proof fn lemma_identity(
    parts: Seq<Block>,
    n: nat,
    base: nat,
    bytes: Seq<u8>,
    uuid: Seq<char>,
    reference: Seq<char>,
    k: int,
)
    requires
        0 <= k < n <= parts.len(),
        crate::source_edit::identity_edits(parts, n, base, bytes, uuid, reference) is Ok,
        parts[k].spec_is_a("uuid"@),
    ensures
        crate::source_edit::identity_edits(parts, n, base, bytes, uuid, reference)->Ok_0.contains(
            crate::source_edit::local(parts[k], base, "(uuid \""@ + uuid + "\")"@),
        ),
    decreases n,
{
    let before = crate::source_edit::identity_edits(
        parts,
        (n - 1) as nat,
        base,
        bytes,
        uuid,
        reference,
    );
    let now = crate::source_edit::identity_edits(parts, n, base, bytes, uuid, reference);
    let wanted = crate::source_edit::local(parts[k], base, "(uuid \""@ + uuid + "\")"@);
    assert(before is Ok);
    if k < n - 1 {
        lemma_identity(parts, (n - 1) as nat, base, bytes, uuid, reference, k);
        if now->Ok_0 != before->Ok_0 {
            let added = now->Ok_0.last();
            assert(now->Ok_0 == before->Ok_0.push(added));
            crate::sequences::pushed_holds(before->Ok_0, added, wanted);
        }
    } else {
        crate::sequences::pushed_holds(before->Ok_0, wanted, wanted);
    }
}

proof fn lemma_references(
    blocks: Seq<Block>,
    n: nat,
    base: nat,
    reference: Seq<char>,
    acc: Seq<EditModel>,
    x: EditModel,
)
    requires
        n <= blocks.len(),
        acc.contains(x),
    ensures
        crate::source_edit::reference_edits(blocks, n, base, reference, acc).contains(x),
    decreases blocks, n,
{
    if n > 0 {
        let before = crate::source_edit::reference_edits(
            blocks,
            (n - 1) as nat,
            base,
            reference,
            acc,
        );
        lemma_references(blocks, (n - 1) as nat, base, reference, acc, x);
        let b = blocks[n - 1];
        let added = crate::source_edit::local(b, base, "(reference \""@ + reference + "\")"@);
        crate::sequences::pushed_holds(before, added, x);
        let own = if b.spec_is_a("reference"@) {
            before.push(added)
        } else {
            before
        };
        lemma_references(b.children@, b.children@.len(), base, reference, own, x);
    }
}

/// A copy of a symbol has the new identifier in the place of the old one.
pub proof fn copies_have_their_own_identifier(
    symbol: Block,
    text: Seq<char>,
    uuid: Seq<char>,
    k: int,
)
    requires
        crate::source_edit::copy_edits(symbol, text, uuid) is Ok,
        0 <= k < symbol.children@.len(),
        symbol.children@[k].spec_is_a("uuid"@),
    ensures
        crate::source_edit::copy_edits(symbol, text, uuid)->Ok_0.contains(
            EditModel {
                start: (symbol.children@[k].start - symbol.start) as nat,
                end: (symbol.children@[k].end - symbol.start) as nat,
                replacement: "(uuid \""@ + uuid + "\")"@,
            },
        ),
{
    let parts = symbol.children@;
    let base = symbol.start as nat;
    let node = symbol.node->0;
    let reference = crate::source_edit::open_reference(node@);
    let bytes = vstd::utf8::encode_utf8(text);
    lemma_identity(parts, parts.len(), base, bytes, uuid, reference, k);
    let edits = crate::source_edit::identity_edits(
        parts,
        parts.len(),
        base,
        bytes,
        uuid,
        reference,
    )->Ok_0;
    lemma_references(
        parts,
        parts.len(),
        base,
        reference,
        edits,
        crate::source_edit::local(parts[k], base, "(uuid \""@ + uuid + "\")"@),
    );
}

/// All of the edits are among the others.
pub open spec fn are_among(edits: Seq<EditModel>, all: Seq<EditModel>) -> bool {
    forall|k: int| 0 <= k < edits.len() ==> all.contains(#[trigger] edits[k])
}

proof fn lemma_moved(
    items: Seq<Block>,
    names: Seq<Seq<char>>,
    dx: Double,
    dy: Double,
    n: nat,
    k: int,
)
    requires
        0 <= k < n <= names.len(),
        crate::group_edit::moved_upto(items, names, dx, dy, n) is Ok,
    ensures
        crate::source_edit::item_move(items, names[k], dx, dy) matches Ok(edits) && are_among(
            edits,
            crate::group_edit::moved_upto(items, names, dx, dy, n)->Ok_0,
        ),
    decreases n,
{
    let before = crate::group_edit::moved_upto(items, names, dx, dy, (n - 1) as nat);
    let more = crate::source_edit::item_move(items, names[n - 1], dx, dy);
    let all = crate::group_edit::moved_upto(items, names, dx, dy, n)->Ok_0;
    assert(before is Ok && more is Ok);
    assert(all == before->Ok_0 + more->Ok_0);
    if k < n - 1 {
        lemma_moved(items, names, dx, dy, (n - 1) as nat, k);
    }
    let own = crate::source_edit::item_move(items, names[k], dx, dy)->Ok_0;
    assert forall|m: int| 0 <= m < own.len() implies all.contains(#[trigger] own[m]) by {
        crate::sequences::either_holds(before->Ok_0, more->Ok_0, own[m]);
        if k == n - 1 {
            assert(more->Ok_0.contains(own[m]));
        }
    }
}

proof fn lemma_followed(
    items: Seq<Block>,
    names: Seq<Seq<char>>,
    wires: Seq<crate::attachment::WireMove>,
    dx: Double,
    dy: Double,
    n: nat,
)
    requires
        n <= wires.len(),
        crate::group_edit::followed_upto(items, names, wires, dx, dy, n) is Ok,
    ensures
        crate::group_edit::moved_upto(items, names, dx, dy, names.len()) matches Ok(edits)
            && are_among(
            edits,
            crate::group_edit::followed_upto(items, names, wires, dx, dy, n)->Ok_0,
        ),
        forall|k: int|
            0 <= k < n ==> {
                let wire = #[trigger] wires[k];
                crate::source_edit::wire_move(
                    items,
                    wire.uuid,
                    wire.move_start,
                    wire.move_end,
                    dx,
                    dy,
                ) matches Ok(edits) && are_among(
                    edits,
                    crate::group_edit::followed_upto(items, names, wires, dx, dy, n)->Ok_0,
                )
            },
    decreases n,
{
    if n == 0 {
        let all = crate::group_edit::moved_upto(items, names, dx, dy, names.len())->Ok_0;
        assert forall|m: int| 0 <= m < all.len() implies all.contains(#[trigger] all[m]) by {}
    } else {
        let before = crate::group_edit::followed_upto(
            items,
            names,
            wires,
            dx,
            dy,
            (n - 1) as nat,
        );
        let last = wires[n - 1];
        let more = crate::source_edit::wire_move(
            items,
            last.uuid,
            last.move_start,
            last.move_end,
            dx,
            dy,
        );
        let all = crate::group_edit::followed_upto(items, names, wires, dx, dy, n)->Ok_0;
        assert(before is Ok && more is Ok);
        assert(all == before->Ok_0 + more->Ok_0);
        lemma_followed(items, names, wires, dx, dy, (n - 1) as nat);
        assert forall|edits: Seq<EditModel>| #[trigger]
            are_among(edits, before->Ok_0) implies are_among(edits, all) by {
            assert forall|m: int| 0 <= m < edits.len() implies all.contains(#[trigger] edits[m]) by {
                assert(before->Ok_0.contains(edits[m]));
                crate::sequences::either_holds(before->Ok_0, more->Ok_0, edits[m]);
            }
        }
        assert forall|k: int| 0 <= k < n implies {
            let wire = #[trigger] wires[k];
            crate::source_edit::wire_move(
                items,
                wire.uuid,
                wire.move_start,
                wire.move_end,
                dx,
                dy,
            ) matches Ok(edits) && are_among(edits, all)
        } by {
            if k == n - 1 {
                let own = more->Ok_0;
                assert forall|m: int| 0 <= m < own.len() implies all.contains(
                    #[trigger] own[m],
                ) by {
                    assert(own.contains(own[m]));
                    crate::sequences::either_holds(before->Ok_0, own, own[m]);
                }
            } else {
                assert(are_among(
                    crate::source_edit::wire_move(
                        items,
                        wires[k].uuid,
                        wires[k].move_start,
                        wires[k].move_end,
                        dx,
                        dy,
                    )->Ok_0,
                    before->Ok_0,
                ));
            }
        }
    }
}

/// Nothing that is selected is left behind: where a selection is moved, every item of it moves by the
/// whole distance, and so do the ends of every wire that follows.
pub proof fn selections_move_as_a_whole(
    items: Seq<Block>,
    names: Seq<Seq<char>>,
    wires: Seq<crate::attachment::WireMove>,
    dx: Double,
    dy: Double,
    all: Seq<EditModel>,
)
    requires
        crate::group_edit::followed_upto(items, names, wires, dx, dy, wires.len()) == Ok::<
            Seq<EditModel>,
            (Seq<char>, EditError),
        >(all),
    ensures
        forall|k: int|
            0 <= k < names.len() ==> (crate::source_edit::item_move(
                items,
                #[trigger] names[k],
                dx,
                dy,
            ) matches Ok(edits) && are_among(edits, all)),
        forall|k: int|
            0 <= k < wires.len() ==> {
                let wire = #[trigger] wires[k];
                crate::source_edit::wire_move(
                    items,
                    wire.uuid,
                    wire.move_start,
                    wire.move_end,
                    dx,
                    dy,
                ) matches Ok(edits) && are_among(edits, all)
            },
{
    lemma_followed(items, names, wires, dx, dy, wires.len());
    let moved = crate::group_edit::moved_upto(items, names, dx, dy, names.len())->Ok_0;
    assert forall|k: int| 0 <= k < names.len() implies (crate::source_edit::item_move(
        items,
        #[trigger] names[k],
        dx,
        dy,
    ) matches Ok(edits) && are_among(edits, all)) by {
        lemma_moved(items, names, dx, dy, names.len(), k);
        let own = crate::source_edit::item_move(items, names[k], dx, dy)->Ok_0;
        assert forall|m: int| 0 <= m < own.len() implies all.contains(#[trigger] own[m]) by {
            assert(moved.contains(own[m]));
            let j = choose|j: int| 0 <= j < moved.len() && moved[j] == own[m];
            assert(all.contains(moved[j]));
        }
    }
}

/// Nothing that is selected is left out where a selection is turned or mirrored: a turn turns each
/// item, and a mirror about an axis mirrors each about that axis.
pub proof fn selections_turn_as_a_whole(
    items: Seq<Block>,
    names: Seq<Seq<char>>,
    t: Transform,
    n: nat,
    k: int,
)
    requires
        0 <= k < n <= names.len(),
        crate::group_edit::transformed_upto(items, names, t, n) is Ok,
    ensures
        ({
            let all = crate::group_edit::transformed_upto(items, names, t, n)->Ok_0;
            &&& t == Transform::Rotate ==> (crate::source_edit::item_turn(
                items,
                names[k],
            ) matches Ok(edits) && are_among(edits, all))
            &&& t == Transform::MirrorX ==> (crate::source_edit::symbol_mirror(
                items,
                names[k],
                "x"@,
            ) matches Ok(edits) && are_among(edits, all))
            &&& t == Transform::MirrorY ==> (crate::source_edit::symbol_mirror(
                items,
                names[k],
                "y"@,
            ) matches Ok(edits) && are_among(edits, all))
        }),
    decreases n,
{
    let before = crate::group_edit::transformed_upto(items, names, t, (n - 1) as nat);
    let more = crate::group_edit::transformed(items, names[n - 1], t);
    let all = crate::group_edit::transformed_upto(items, names, t, n)->Ok_0;
    assert(before is Ok && more is Ok);
    assert(all == before->Ok_0 + more->Ok_0);
    if k < n - 1 {
        selections_turn_as_a_whole(items, names, t, (n - 1) as nat, k);
    }
    let own = crate::group_edit::transformed(items, names[k], t)->Ok_0;
    assert forall|m: int| 0 <= m < own.len() implies all.contains(#[trigger] own[m]) by {
        crate::sequences::either_holds(before->Ok_0, more->Ok_0, own[m]);
        if k == n - 1 {
            assert(more->Ok_0.contains(own[m]));
        }
    }
}

/// The first item of its kind that has an identifier is the one that is found by it.
pub proof fn first_of_kind_is_found(items: Seq<Block>, tag: Seq<char>, uuid: Seq<char>, i: int)
    requires
        is_first_of_kind(items, tag, uuid, i),
    ensures
        crate::source_edit::item_of_kind_from(items, tag, uuid, 0) == Some(i),
{
    lemma_of_kind(items, tag, uuid, 0, i);
}

/// The first block that begins with a word is the one that is found by it.
pub proof fn first_child_is_found(blocks: Seq<Block>, tag: Seq<char>, k: int)
    requires
        is_first_child(blocks, tag, k),
    ensures
        crate::source_edit::child_from(blocks, tag, 0) == Some(k),
{
    lemma_child_is(blocks, tag, k);
}

} // verus!
