//! Edits of several items at once: what is selected, and the wires that follow it.

use crate::attachment::ConnectedWireMove;
use crate::double::Double;
use crate::edit_control::Transform;
use crate::source_edit::mirror_symbol_source;
use crate::source_edit::move_item_source;
use crate::source_edit::move_wire_endpoints_source;
use crate::source_edit::rotate_item_source;
use crate::source_edit::Block;
use crate::source_edit::Edit;
use crate::source_edit::EditError;
use crate::text::sorted_set;
use vstd::prelude::*;

verus! {

/// Why several items cannot be edited: the first fault, and the item it is about.
pub struct GroupFault {
    pub uuid: String,
    pub error: EditError,
}

/// The edits of several items, and the items.
pub struct GroupEdit {
    pub edits: Vec<Edit>,
    pub changed: Vec<String>,
}

/// The edits so far, and those of one more item.
pub open spec fn and_then_item(
    before: Result<Seq<crate::source_edit::EditModel>, (Seq<char>, EditError)>,
    uuid: Seq<char>,
    next: Result<Seq<crate::source_edit::EditModel>, EditError>,
) -> Result<Seq<crate::source_edit::EditModel>, (Seq<char>, EditError)> {
    match (before, next) {
        (Err(fault), _) => Err(fault),
        (Ok(_), Err(error)) => Err((uuid, error)),
        (Ok(edits), Ok(more)) => Ok(edits + more),
    }
}

/// The edits that move the first `n` of the named items.
pub open spec fn moved_upto(
    items: Seq<Block>,
    names: Seq<Seq<char>>,
    dx: Double,
    dy: Double,
    n: nat,
) -> Result<Seq<crate::source_edit::EditModel>, (Seq<char>, EditError)>
    decreases n,
{
    if n == 0 {
        Ok(Seq::empty())
    } else {
        and_then_item(
            moved_upto(items, names, dx, dy, (n - 1) as nat),
            names[n - 1],
            crate::source_edit::item_move(items, names[n - 1], dx, dy),
        )
    }
}

/// The edits that move the named items and the ends of the first `n` wires.
pub open spec fn followed_upto(
    items: Seq<Block>,
    names: Seq<Seq<char>>,
    wires: Seq<crate::attachment::WireMove>,
    dx: Double,
    dy: Double,
    n: nat,
) -> Result<Seq<crate::source_edit::EditModel>, (Seq<char>, EditError)>
    decreases n,
{
    if n == 0 {
        moved_upto(items, names, dx, dy, names.len())
    } else {
        let wire = wires[n - 1];
        and_then_item(
            followed_upto(items, names, wires, dx, dy, (n - 1) as nat),
            wire.uuid,
            crate::source_edit::wire_move(
                items,
                wire.uuid,
                wire.move_start,
                wire.move_end,
                dx,
                dy,
            ),
        )
    }
}

/// The edits that transform one item.
pub open spec fn transformed(items: Seq<Block>, uuid: Seq<char>, t: Transform) -> Result<
    Seq<crate::source_edit::EditModel>,
    EditError,
> {
    match t {
        Transform::Rotate => crate::source_edit::item_turn(items, uuid),
        Transform::MirrorX => crate::source_edit::symbol_mirror(items, uuid, "x"@),
        Transform::MirrorY => crate::source_edit::symbol_mirror(items, uuid, "y"@),
    }
}

/// The edits that transform the first `n` of the named items.
pub open spec fn transformed_upto(
    items: Seq<Block>,
    names: Seq<Seq<char>>,
    t: Transform,
    n: nat,
) -> Result<Seq<crate::source_edit::EditModel>, (Seq<char>, EditError)>
    decreases n,
{
    if n == 0 {
        Ok(Seq::empty())
    } else {
        and_then_item(
            transformed_upto(items, names, t, (n - 1) as nat),
            names[n - 1],
            transformed(items, names[n - 1], t),
        )
    }
}

/// What is planned, as a value.
pub open spec fn planned(r: Result<GroupEdit, GroupFault>) -> Result<
    Seq<crate::source_edit::EditModel>,
    (Seq<char>, EditError),
> {
    match r {
        Ok(group) => Ok(crate::source_edit::edit_models(group.edits@)),
        Err(fault) => Err((fault.uuid@, fault.error)),
    }
}

/// The identifiers of the wires.
pub open spec fn wire_names(wires: Seq<crate::attachment::WireMove>) -> Seq<Seq<char>> {
    wires.map_values(|w: crate::attachment::WireMove| w.uuid)
}

fn add_edits(edits: &mut Vec<Edit>, more: Vec<Edit>)
    ensures
        crate::source_edit::edit_models(final(edits)@) == crate::source_edit::edit_models(
            old(edits)@,
        ) + crate::source_edit::edit_models(more@),
{
    let mut more = more;
    let ghost before = edits@;
    let ghost added = more@;
    edits.append(&mut more);
    proof {
        assert(crate::source_edit::edit_models(edits@) =~= crate::source_edit::edit_models(before)
            + crate::source_edit::edit_models(added));
    }
}

proof fn lemma_moved_fault(
    items: Seq<Block>,
    names: Seq<Seq<char>>,
    dx: Double,
    dy: Double,
    n: nat,
    m: nat,
)
    requires
        n <= m,
        moved_upto(items, names, dx, dy, n) is Err,
    ensures
        moved_upto(items, names, dx, dy, m) == moved_upto(items, names, dx, dy, n),
    decreases m,
{
    if n < m {
        lemma_moved_fault(items, names, dx, dy, n, (m - 1) as nat);
    }
}

proof fn lemma_followed_fault(
    items: Seq<Block>,
    names: Seq<Seq<char>>,
    wires: Seq<crate::attachment::WireMove>,
    dx: Double,
    dy: Double,
    n: nat,
    m: nat,
)
    requires
        n <= m,
        followed_upto(items, names, wires, dx, dy, n) is Err,
    ensures
        followed_upto(items, names, wires, dx, dy, m) == followed_upto(
            items,
            names,
            wires,
            dx,
            dy,
            n,
        ),
    decreases m,
{
    if n < m {
        lemma_followed_fault(items, names, wires, dx, dy, n, (m - 1) as nat);
    }
}

proof fn lemma_transformed_fault(
    items: Seq<Block>,
    names: Seq<Seq<char>>,
    t: Transform,
    n: nat,
    m: nat,
)
    requires
        n <= m,
        transformed_upto(items, names, t, n) is Err,
    ensures
        transformed_upto(items, names, t, m) == transformed_upto(items, names, t, n),
    decreases m,
{
    if n < m {
        lemma_transformed_fault(items, names, t, n, (m - 1) as nat);
    }
}

fn move_named(items: &Vec<Block>, names: &Vec<String>, dx: Double, dy: Double) -> (r: Result<
    Vec<Edit>,
    GroupFault,
>)
    requires
        crate::source_edit::wf_blocks(items@),
        crate::source_edit::wf_shift(dx),
        crate::source_edit::wf_shift(dy),
    ensures
        (match r {
            Ok(edits) => Ok(crate::source_edit::edit_models(edits@)),
            Err(fault) => Err((fault.uuid@, fault.error)),
        }) == moved_upto(items@, crate::text::views(names@), dx, dy, names@.len()),
{
    let ghost all = crate::text::views(names@);
    let mut edits: Vec<Edit> = Vec::new();
    let mut i: usize = 0;
    proof {
        assert(crate::source_edit::edit_models(edits@) =~= Seq::empty());
    }
    while i < names.len()
        invariant
            i <= names@.len(),
            all == crate::text::views(names@),
            crate::source_edit::wf_blocks(items@),
            crate::source_edit::wf_shift(dx),
            crate::source_edit::wf_shift(dy),
            moved_upto(items@, all, dx, dy, i as nat) == Ok::<
                Seq<crate::source_edit::EditModel>,
                (Seq<char>, EditError),
            >(crate::source_edit::edit_models(edits@)),
        decreases names@.len() - i,
    {
        assert(all[i as int] == names@[i as int]@);
        match move_item_source(items, names[i].as_str(), dx, dy) {
            Ok(more) => add_edits(&mut edits, more),
            Err(error) => {
                proof {
                    lemma_moved_fault(items@, all, dx, dy, (i + 1) as nat, names@.len());
                }
                return Err(GroupFault { uuid: names[i].clone(), error });
            },
        }
        i = i + 1;
    }
    Ok(edits)
}

/// Plans to move what is selected, and the ends of the wires that are attached to it. The edits
/// are all of the same document.
pub fn move_items_with_connected_wires(
    items: &Vec<Block>,
    selected: &Vec<String>,
    wires: &Vec<ConnectedWireMove>,
    dx: Double,
    dy: Double,
) -> (r: Result<GroupEdit, GroupFault>)
    requires
        crate::source_edit::wf_blocks(items@),
        crate::source_edit::wf_shift(dx),
        crate::source_edit::wf_shift(dy),
    ensures
        exists|names: Seq<Seq<char>>|
            {
                &&& #[trigger] crate::text::is_sorted_set(names, crate::text::views(selected@))
                &&& planned(r) == followed_upto(
                    items@,
                    names,
                    crate::attachment::moves(wires@),
                    dx,
                    dy,
                    wires@.len(),
                )
                &&& r matches Ok(group) ==> crate::text::views(group.changed@) == names + wire_names(
                    crate::attachment::moves(wires@),
                )
            },
{
    let mut changed = sorted_set(selected);
    let ghost names = crate::text::views(changed@);
    let ghost all = crate::attachment::moves(wires@);
    let mut edits = match move_named(items, &changed, dx, dy) {
        Ok(edits) => edits,
        Err(fault) => {
            proof {
                lemma_followed_fault(items@, names, all, dx, dy, 0, wires@.len());
                assert(crate::text::is_sorted_set(names, crate::text::views(selected@)));
            }
            return Err(fault);
        },
    };
    let mut i: usize = 0;
    proof {
        assert(wire_names(all.take(0)) =~= Seq::empty());
        assert(names =~= names + wire_names(all.take(0)));
    }
    while i < wires.len()
        invariant
            i <= wires@.len(),
            all == crate::attachment::moves(wires@),
            crate::source_edit::wf_blocks(items@),
            crate::source_edit::wf_shift(dx),
            crate::source_edit::wf_shift(dy),
            crate::text::is_sorted_set(names, crate::text::views(selected@)),
            crate::text::views(changed@) == names + wire_names(all.take(i as int)),
            followed_upto(items@, names, all, dx, dy, i as nat) == Ok::<
                Seq<crate::source_edit::EditModel>,
                (Seq<char>, EditError),
            >(crate::source_edit::edit_models(edits@)),
        decreases wires@.len() - i,
    {
        let wire = &wires[i];
        assert(all[i as int] == wire.model());
        match move_wire_endpoints_source(
            items,
            wire.uuid.as_str(),
            wire.move_start,
            wire.move_end,
            dx,
            dy,
        ) {
            Ok(more) => add_edits(&mut edits, more),
            Err(error) => {
                proof {
                    lemma_followed_fault(items@, names, all, dx, dy, (i + 1) as nat, wires@.len());
                    assert(crate::text::is_sorted_set(names, crate::text::views(selected@)));
                }
                return Err(GroupFault { uuid: wire.uuid.clone(), error });
            },
        }
        let ghost before = changed@;
        changed.push(wire.uuid.clone());
        proof {
            assert(crate::text::views(changed@) =~= crate::text::views(before).push(wire.uuid@));
            assert(wire_names(all.take(i + 1)) =~= wire_names(all.take(i as int)).push(
                wire.uuid@,
            ));
            assert(crate::text::views(changed@) =~= names + wire_names(all.take(i + 1)));
        }
        i = i + 1;
    }
    proof {
        assert(all.take(wires@.len() as int) =~= all);
        assert(crate::text::is_sorted_set(names, crate::text::views(selected@)));
    }
    Ok(GroupEdit { edits, changed })
}

fn transform_item(items: &Vec<Block>, uuid: &str, t: Transform) -> (r: Result<Vec<Edit>, EditError>)
    requires
        crate::source_edit::wf_blocks(items@),
    ensures
        crate::source_edit::plan(r) == transformed(items@, uuid@, t),
{
    match t {
        Transform::Rotate => rotate_item_source(items, uuid),
        Transform::MirrorX => mirror_symbol_source(items, uuid, "x"),
        Transform::MirrorY => mirror_symbol_source(items, uuid, "y"),
    }
}

/// Plans to turn or mirror what is selected.
pub fn transform_items(items: &Vec<Block>, selected: &Vec<String>, t: Transform) -> (r: Result<
    GroupEdit,
    GroupFault,
>)
    requires
        crate::source_edit::wf_blocks(items@),
    ensures
        exists|names: Seq<Seq<char>>|
            {
                &&& #[trigger] crate::text::is_sorted_set(names, crate::text::views(selected@))
                &&& planned(r) == transformed_upto(items@, names, t, names.len())
                &&& r matches Ok(group) ==> crate::text::views(group.changed@) == names
            },
{
    let changed = sorted_set(selected);
    let ghost names = crate::text::views(changed@);
    let mut edits: Vec<Edit> = Vec::new();
    let mut i: usize = 0;
    proof {
        assert(crate::source_edit::edit_models(edits@) =~= Seq::empty());
    }
    while i < changed.len()
        invariant
            i <= changed@.len(),
            names == crate::text::views(changed@),
            crate::source_edit::wf_blocks(items@),
            crate::text::is_sorted_set(names, crate::text::views(selected@)),
            transformed_upto(items@, names, t, i as nat) == Ok::<
                Seq<crate::source_edit::EditModel>,
                (Seq<char>, EditError),
            >(crate::source_edit::edit_models(edits@)),
        decreases changed@.len() - i,
    {
        assert(names[i as int] == changed@[i as int]@);
        match transform_item(items, changed[i].as_str(), t) {
            Ok(more) => add_edits(&mut edits, more),
            Err(error) => {
                proof {
                    lemma_transformed_fault(items@, names, t, (i + 1) as nat, names.len());
                    assert(crate::text::is_sorted_set(names, crate::text::views(selected@)));
                }
                return Err(GroupFault { uuid: changed[i].clone(), error });
            },
        }
        i = i + 1;
    }
    proof {
        assert(crate::text::is_sorted_set(names, crate::text::views(selected@)));
    }
    Ok(GroupEdit { edits, changed })
}

/// The edit lies in an item that has one of the names.
pub open spec fn in_named(
    items: Seq<Block>,
    names: Seq<Seq<char>>,
    edit: crate::source_edit::EditModel,
) -> bool {
    exists|i: int, k: int|
        0 <= i < items.len() && 0 <= k < names.len() && (#[trigger] items[i]).spec_owns(
            #[trigger] names[k],
        ) && items[i].start <= edit.start && edit.end <= items[i].end
}

proof fn lemma_more_names(
    items: Seq<Block>,
    names: Seq<Seq<char>>,
    more: Seq<Seq<char>>,
    edit: crate::source_edit::EditModel,
)
    requires
        in_named(items, names, edit),
    ensures
        in_named(items, names + more, edit),
{
    let (i, k) = choose|i: int, k: int|
        0 <= i < items.len() && 0 <= k < names.len() && (#[trigger] items[i]).spec_owns(
            #[trigger] names[k],
        ) && items[i].start <= edit.start && edit.end <= items[i].end;
    assert((names + more)[k] == names[k]);
    assert(items[i].spec_owns((names + more)[k]));
}

proof fn lemma_moved_in_named(
    items: Seq<Block>,
    names: Seq<Seq<char>>,
    dx: Double,
    dy: Double,
    n: nat,
)
    requires
        crate::source_edit::wf_blocks(items),
        n <= names.len(),
    ensures
        moved_upto(items, names, dx, dy, n) matches Ok(edits) ==> forall|k: int|
            0 <= k < edits.len() ==> in_named(items, names, #[trigger] edits[k]),
    decreases n,
{
    if n > 0 {
        lemma_moved_in_named(items, names, dx, dy, (n - 1) as nat);
        let uuid = names[n - 1];
        crate::source_edit::item_move_keeps_the_rest(items, uuid, dx, dy);
        if let Ok(edits) = moved_upto(items, names, dx, dy, n) {
            let before = moved_upto(items, names, dx, dy, (n - 1) as nat)->Ok_0;
            let more = crate::source_edit::item_move(items, uuid, dx, dy)->Ok_0;
            let i = choose|i: int|
                0 <= i < items.len() && (#[trigger] items[i]).spec_owns(uuid)
                    && crate::source_edit::keeps_within(
                    more,
                    items[i].start as int,
                    items[i].end as int,
                );
            assert forall|k: int| 0 <= k < edits.len() implies in_named(
                items,
                names,
                #[trigger] edits[k],
            ) by {
                if k < before.len() {
                    assert(edits[k] == before[k]);
                } else {
                    assert(edits[k] == more[k - before.len()]);
                    assert(items[i].spec_owns(names[n - 1]));
                }
            }
        }
    }
}

proof fn lemma_followed_in_named(
    items: Seq<Block>,
    names: Seq<Seq<char>>,
    wires: Seq<crate::attachment::WireMove>,
    dx: Double,
    dy: Double,
    n: nat,
)
    requires
        crate::source_edit::wf_blocks(items),
        n <= wires.len(),
        forall|k: int|
            0 <= k < wires.len() ==> (#[trigger] wires[k]).move_start || wires[k].move_end,
    ensures
        followed_upto(items, names, wires, dx, dy, n) matches Ok(edits) ==> forall|k: int|
            0 <= k < edits.len() ==> in_named(items, names + wire_names(wires), #[trigger] edits[k]),
    decreases n,
{
    let all = names + wire_names(wires);
    if n == 0 {
        lemma_moved_in_named(items, names, dx, dy, names.len());
        if let Ok(edits) = moved_upto(items, names, dx, dy, names.len()) {
            assert forall|k: int| 0 <= k < edits.len() implies in_named(
                items,
                all,
                #[trigger] edits[k],
            ) by {
                lemma_more_names(items, names, wire_names(wires), edits[k]);
            }
        }
    } else {
        lemma_followed_in_named(items, names, wires, dx, dy, (n - 1) as nat);
        let wire = wires[n - 1];
        crate::source_edit::wire_move_keeps_the_rest(
            items,
            wire.uuid,
            wire.move_start,
            wire.move_end,
            dx,
            dy,
        );
        if let Ok(edits) = followed_upto(items, names, wires, dx, dy, n) {
            let before = followed_upto(items, names, wires, dx, dy, (n - 1) as nat)->Ok_0;
            let more = crate::source_edit::wire_move(
                items,
                wire.uuid,
                wire.move_start,
                wire.move_end,
                dx,
                dy,
            )->Ok_0;
            let i = choose|i: int|
                0 <= i < items.len() && (#[trigger] items[i]).spec_owns(wire.uuid)
                    && crate::source_edit::keeps_within(
                    more,
                    items[i].start as int,
                    items[i].end as int,
                );
            assert(all[names.len() + n - 1] == wire.uuid);
            assert forall|k: int| 0 <= k < edits.len() implies in_named(
                items,
                all,
                #[trigger] edits[k],
            ) by {
                if k < before.len() {
                    assert(edits[k] == before[k]);
                } else {
                    assert(edits[k] == more[k - before.len()]);
                    assert(items[i].spec_owns(all[names.len() + n - 1]));
                }
            }
        }
    }
}

/// Moving what is selected changes no byte outside the selected items and the wires that follow
/// them.
pub proof fn group_move_keeps_the_rest(
    items: Seq<Block>,
    names: Seq<Seq<char>>,
    wires: Seq<crate::attachment::WireMove>,
    dx: Double,
    dy: Double,
)
    requires
        crate::source_edit::wf_blocks(items),
        forall|k: int|
            0 <= k < wires.len() ==> (#[trigger] wires[k]).move_start || wires[k].move_end,
    ensures
        followed_upto(items, names, wires, dx, dy, wires.len()) matches Ok(edits) ==> forall|k: int|
            0 <= k < edits.len() ==> in_named(items, names + wire_names(wires), #[trigger] edits[k]),
{
    lemma_followed_in_named(items, names, wires, dx, dy, wires.len());
}

} // verus!
