//! The order in which the sheets and symbols of a schematic are drawn.

use crate::scene::ObjectKind;
use crate::scene_builder::Thing;
use vstd::prelude::*;

verus! {

/// Sheets are drawn from the right to the left, and those in one column from the top to the bottom.
pub proof fn sheets_are_drawn_from_the_right(root: crate::sexp::Sexp, k: int, l: int)
    requires
        ({
            let sheets = root.tagged("sheet"@);
            &&& sheets.len() <= usize::MAX
            &&& forall|i: int|
                0 <= i < sheets.len() ==> crate::document_drawing::corner_of(
                    #[trigger] sheets[i],
                ).x.wf() && crate::document_drawing::corner_of(sheets[i]).y.wf()
        }),
        0 <= k < l < crate::document_drawing::sheets_in_order(root).len(),
    ensures
        ({
            let all = crate::document_drawing::sheets_in_order(root);
            let a = crate::document_drawing::corner_of(all[k]);
            let b = crate::document_drawing::corner_of(all[l]);
            &&& !a.x.spec_less(b.x)
            &&& a.x == b.x ==> !b.y.spec_less(a.y)
        }),
{
    let sheets = root.tagged("sheet"@);
    let lt = crate::document_drawing::by_corner(sheets);
    let order = crate::ordering::stable_by(sheets.len(), lt);
    crate::document_drawing::corners_are_ordered(sheets);
    crate::ordering::stable_order_leaves_out_nothing(sheets.len(), lt);
    let all = crate::document_drawing::sheets_in_order(root);
    let a = crate::document_drawing::corner_of(all[k]);
    let b = crate::document_drawing::corner_of(all[l]);
    assert(all[k] == sheets[order[k] as int]);
    assert(all[l] == sheets[order[l] as int]);
    assert(lt(order[k], order[l]) || (!lt(order[l], order[k]) && order[k] < order[l]));
    crate::double::less_is_total(a.x, b.x, a.x);
    crate::double::less_is_total(b.x, a.x, b.x);
    crate::double::less_is_total(a.y, b.y, a.y);
    crate::double::less_is_total(b.y, a.y, b.y);
    crate::double::less_is_total(a.x, a.x, a.x);
}

/// Every sheet is drawn once.
pub proof fn no_sheet_is_left_out(root: crate::sexp::Sexp, i: int)
    requires
        ({
            let sheets = root.tagged("sheet"@);
            &&& sheets.len() <= usize::MAX
            &&& forall|k: int|
                0 <= k < sheets.len() ==> crate::document_drawing::corner_of(
                    #[trigger] sheets[k],
                ).x.wf() && crate::document_drawing::corner_of(sheets[k]).y.wf()
        }),
        0 <= i < root.tagged("sheet"@).len(),
    ensures
        crate::document_drawing::sheets_in_order(root).contains(root.tagged("sheet"@)[i]),
        crate::document_drawing::sheets_in_order(root).len() == root.tagged("sheet"@).len(),
{
    let sheets = root.tagged("sheet"@);
    let lt = crate::document_drawing::by_corner(sheets);
    let order = crate::ordering::stable_by(sheets.len(), lt);
    crate::document_drawing::corners_are_ordered(sheets);
    crate::ordering::stable_order_leaves_out_nothing(sheets.len(), lt);
    assert(order.contains(i as usize));
    let k = choose|k: int| 0 <= k < order.len() && order[k] == i as usize;
    assert(crate::document_drawing::sheets_in_order(root)[k] == sheets[i]);
}

proof fn lemma_without(things: Seq<Thing>, order: Seq<usize>, n: nat, x: usize)
    requires
        n <= order.len(),
    ensures
        crate::document_drawing::without_junctions(things, order, n).contains(x) <==> order.take(
            n as int,
        ).contains(x) && things[x as int].kind != ObjectKind::Junction,
    decreases n,
{
    let all = crate::document_drawing::without_junctions(things, order, n);
    if n == 0 {
        assert(order.take(0) =~= Seq::<usize>::empty());
    } else {
        let before = crate::document_drawing::without_junctions(things, order, (n - 1) as nat);
        lemma_without(things, order, (n - 1) as nat, x);
        assert(order.take(n as int) =~= order.take(n - 1).push(order[n - 1]));
        crate::sequences::pushed_holds(order.take(n - 1), order[n - 1], x);
        crate::sequences::pushed_holds(before, order[n - 1], x);
    }
}

/// What is plotted is all that the index lists but the junctions, and comes from the highest type of
/// item down to the lowest.
pub proof fn plots_leave_out_junctions(
    things: Seq<Thing>,
    order: Seq<usize>,
    plot: Seq<usize>,
    x: usize,
)
    requires
        crate::document_drawing::is_plot_order(things, order, plot),
    ensures
        plot.contains(x) <==> order.contains(x) && things[x as int].kind != ObjectKind::Junction,
        forall|k: int, l: int|
            #![trigger plot[k], plot[l]]
            0 <= k < l < plot.len() && plot[k] < things.len() && plot[l] < things.len()
                ==> things[plot[k] as int].item_type >= things[plot[l] as int].item_type,
{
    let unsorted = crate::document_drawing::without_junctions(things, order, order.len());
    lemma_without(things, order, order.len(), x);
    assert(order.take(order.len() as int) =~= order);
    broadcast use vstd::seq_lib::group_to_multiset_ensures;

    assert(plot.contains(x) <==> plot.to_multiset().count(x) > 0);
    assert(unsorted.contains(x) <==> unsorted.to_multiset().count(x) > 0);
    let lt = crate::document_drawing::by_type(things);
    assert forall|k: int, l: int|
        #![trigger plot[k], plot[l]]
        0 <= k < l < plot.len() && plot[k] < things.len() && plot[l]
            < things.len() implies things[plot[k] as int].item_type
        >= things[plot[l] as int].item_type by {
        assert(!lt(plot[l], plot[k]));
    }
}

/// The identifier stands at one place of the order, as that of a symbol.
pub open spec fn stands_at(things: Seq<Thing>, order: Seq<usize>, uuid: Seq<char>, p: int) -> bool {
    &&& 0 <= p < order.len()
    &&& things[order[p] as int].kind == ObjectKind::Symbol
    &&& things[order[p] as int].uuid == uuid
    &&& forall|q: int|
        p < q < order.len() ==> !(things[#[trigger] order[q] as int].kind == ObjectKind::Symbol
            && things[order[q] as int].uuid == uuid)
}

proof fn lemma_rank(things: Seq<Thing>, order: Seq<usize>, uuid: Seq<char>, p: int, n: nat)
    requires
        stands_at(things, order, uuid, p),
        p < n <= order.len(),
    ensures
        crate::document_drawing::symbol_rank(things, order, uuid, n) == Some(p as nat),
    decreases n,
{
    if p < n - 1 {
        assert(!(things[order[n - 1] as int].kind == ObjectKind::Symbol
            && things[order[n - 1] as int].uuid == uuid));
        lemma_rank(things, order, uuid, p, (n - 1) as nat);
    }
}

/// Symbols are drawn in the order in which the index lists them.
pub proof fn symbols_are_drawn_as_the_index_lists_them(
    nodes: Seq<crate::sexp::Sexp>,
    things: Seq<Thing>,
    order: Seq<usize>,
    a: int,
    b: int,
    first: Seq<char>,
    second: Seq<char>,
    p: int,
    q: int,
)
    requires
        nodes.len() <= usize::MAX,
        order.len() <= usize::MAX,
        0 <= a < nodes.len(),
        0 <= b < nodes.len(),
        nodes[a].first_text("uuid"@) == Some(first),
        nodes[b].first_text("uuid"@) == Some(second),
        stands_at(things, order, first, p),
        stands_at(things, order, second, q),
        p < q,
    ensures
        ({
            let all = crate::document_drawing::arranged(nodes, things, order, None, 0);
            exists|k: int, l: int|
                #![trigger all[k], all[l]]
                0 <= k < l < all.len() && all[k] == nodes[a] && all[l] == nodes[b]
        }),
{
    let keys = crate::document_drawing::rank_keys(things, order, nodes);
    let lt = crate::ordering::by_key(keys);
    let places = crate::ordering::stable_places(keys);
    lemma_rank(things, order, first, p, order.len());
    lemma_rank(things, order, second, q, order.len());
    assert(keys[a] == p as u64);
    assert(keys[b] == q as u64);
    assert(keys.len() == nodes.len());
    assert(crate::stl_sort::strict_weak_order(lt));
    crate::ordering::stable_order_leaves_out_nothing(keys.len(), lt);
    assert(places.contains(a as usize));
    assert(places.contains(b as usize));
    let k = choose|k: int| 0 <= k < places.len() && places[k] == a as usize;
    let l = choose|l: int| 0 <= l < places.len() && places[l] == b as usize;
    assert(lt(a as usize, b as usize));
    if l < k {
        assert(lt(places[l], places[k]) || (!lt(places[k], places[l]) && places[l] < places[k]));
    }
    let all = crate::document_drawing::arranged(nodes, things, order, None, 0);
    assert(all[k] == nodes[a]);
    assert(all[l] == nodes[b]);
}

} // verus!
