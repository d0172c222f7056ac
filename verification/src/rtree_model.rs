//! What the spatial index does, as functions on values.
//!
//! The index is a Guttman R-tree of at most eight branches to a node. A branch goes to
//! the child whose volume grows least; a full node is split by seeding two groups with
//! the pair that wastes most volume and handing the rest out by preference. Volumes are
//! those of the sphere round a box, in double precision.
//!
//! The second half states what every operation keeps: nodes are neither overfull nor, but
//! for the root, underfull, boxes enclose what lies below them, and no item is lost or
//! doubled.

use crate::double::Double;
use vstd::prelude::*;

verus! {

broadcast use vstd::multiset::group_multiset_axioms;

pub const MAX_BRANCHES: usize = 8;

pub const MIN_BRANCHES: usize = 4;

/// The type of the items that are put back when the symbols are refreshed.
pub const SYMBOL_TYPE: i32 = 70;

/// Coordinates reach this far from the origin, in internal units: the differences of those that
/// reach further do not fit an integer of 64 bits.
pub const REACH: i64 = 0x4000_0000_0000_0000;

/// A box over item types and integer schematic coordinates.
#[derive(Clone, Copy, PartialEq, Eq, Structural, Debug)]
pub struct Rect {
    pub min_type: i32,
    pub min_x: i64,
    pub min_y: i64,
    pub max_type: i32,
    pub max_x: i64,
    pub max_y: i64,
}

/// What a node holds, as a value: its level and, in order, each branch with its box.
pub ghost enum Tree {
    Item(nat),
    Inner(nat, Seq<(Rect, Tree)>),
}

pub open spec fn spec_min(a: int, b: int) -> int {
    if a <= b {
        a
    } else {
        b
    }
}

pub open spec fn spec_max(a: int, b: int) -> int {
    if a >= b {
        a
    } else {
        b
    }
}

pub open spec fn gap(a: int, b: int) -> int {
    if a >= b {
        a - b
    } else {
        b - a
    }
}

/// Half the distance, squared.
pub open spec fn half_squared(distance: int) -> Double {
    crate::double::nearest(distance, -1).spec_product(crate::double::nearest(distance, -1))
}

/// 4.18879, the volume of the unit sphere, in single precision.
pub open spec fn sphere() -> Double {
    Double { negative: false, mantissa: 0x10_c152_2000_0000, exponent: (-50) as i64 }
}

impl Rect {
    pub open spec fn wf(self) -> bool {
        &&& self.min_type <= self.max_type
        &&& -REACH <= self.min_x <= self.max_x <= REACH
        &&& -REACH <= self.min_y <= self.max_y <= REACH
    }

    /// The smallest box round both.
    pub open spec fn spec_combine(self, other: Rect) -> Rect {
        Rect {
            min_type: spec_min(self.min_type as int, other.min_type as int) as i32,
            min_x: spec_min(self.min_x as int, other.min_x as int) as i64,
            min_y: spec_min(self.min_y as int, other.min_y as int) as i64,
            max_type: spec_max(self.max_type as int, other.max_type as int) as i32,
            max_x: spec_max(self.max_x as int, other.max_x as int) as i64,
            max_y: spec_max(self.max_y as int, other.max_y as int) as i64,
        }
    }

    pub open spec fn squared_radius(self) -> Double {
        half_squared(gap(self.max_type as int, self.min_type as int)).spec_sum(
            half_squared(gap(self.max_x as int, self.min_x as int)),
        ).spec_sum(half_squared(gap(self.max_y as int, self.min_y as int)))
    }

    /// The volume of the sphere round the box.
    #[verifier::opaque]
    pub open spec fn volume(self) -> Double {
        let radius = self.squared_radius().spec_root();
        radius.spec_product(radius).spec_product(radius).spec_product(sphere())
    }

    pub open spec fn spec_overlaps(self, other: Rect) -> bool {
        &&& self.min_type <= other.max_type
        &&& self.max_type >= other.min_type
        &&& self.min_x <= other.max_x
        &&& self.max_x >= other.min_x
        &&& self.min_y <= other.max_y
        &&& self.max_y >= other.min_y
    }

    /// `other` lies within `self`.
    pub open spec fn encloses(self, other: Rect) -> bool {
        &&& self.min_type <= other.min_type && other.max_type <= self.max_type
        &&& self.min_x <= other.min_x && other.max_x <= self.max_x
        &&& self.min_y <= other.min_y && other.max_y <= self.max_y
    }
}

/// The smallest box round all of `rects`.
pub open spec fn cover_of(rects: Seq<Rect>) -> Rect
    decreases rects.len(),
{
    if rects.len() <= 1 {
        rects[0]
    } else {
        cover_of(rects.drop_last()).spec_combine(rects.last())
    }
}

pub open spec fn rects_of(branches: Seq<(Rect, Tree)>) -> Seq<Rect> {
    branches.map_values(|b: (Rect, Tree)| b.0)
}

pub open spec fn cover(branches: Seq<(Rect, Tree)>) -> Rect {
    cover_of(rects_of(branches))
}

/// By how much the volume of `held` grows when `added` joins it.
pub open spec fn increase(held: Rect, added: Rect) -> Double {
    held.spec_combine(added).volume().spec_difference(held.volume())
}

/// Of the first `n` boxes, the first one that grows least, and among those that grow
/// equally the first of the smallest.
pub open spec fn picked(rects: Seq<Rect>, added: Rect, n: nat) -> int
    decreases n,
{
    if n <= 1 {
        0
    } else {
        let best = picked(rects, added, (n - 1) as nat);
        let here = increase(rects[n - 1], added);
        let there = increase(rects[best], added);
        if here.spec_less(there) || (here == there && rects[n - 1].volume().spec_less(
            rects[best].volume(),
        )) {
            n - 1
        } else {
            best
        }
    }
}

/// The volume that a group of the two would waste.
pub open spec fn waste(rects: Seq<Rect>, left: int, right: int) -> Double {
    rects[left].spec_combine(rects[right]).volume().spec_difference(
        rects[left].volume(),
    ).spec_difference(rects[right].volume())
}

/// The more wasteful of the pair `best` and the pair `left`, `right`; the latter where
/// they waste the same.
pub open spec fn more_wasteful(
    rects: Seq<Rect>,
    best: (int, int),
    left: int,
    right: int,
) -> (int, int) {
    if waste(rects, left, right).spec_less(waste(rects, best.0, best.1)) {
        best
    } else {
        (left, right)
    }
}

/// The most wasteful of `best` and the pairs of `left` with what follows it up to `to`.
pub open spec fn worst_with(rects: Seq<Rect>, best: (int, int), left: int, to: int) -> (int, int)
    decreases to - left,
{
    if to <= left + 1 {
        best
    } else {
        more_wasteful(rects, worst_with(rects, best, left, to - 1), left, to - 1)
    }
}

/// The most wasteful of the pairs whose first box comes before `to`.
pub open spec fn worst_before(rects: Seq<Rect>, to: int) -> (int, int)
    decreases to,
{
    if to <= 0 {
        (0, 1)
    } else {
        worst_with(rects, worst_before(rects, to - 1), to - 1, rects.len() as int)
    }
}

/// The last of the most wasteful pairs.
pub open spec fn seeds(rects: Seq<Rect>) -> (int, int) {
    worst_before(rects, rects.len() - 1)
}

/// Two groups of boxes in the making: which group each box is in, `false` for the
/// first, and the size and the cover of each group.
pub ghost struct Groups {
    pub part: Seq<Option<bool>>,
    pub first: nat,
    pub second: nat,
    pub first_cover: Rect,
    pub second_cover: Rect,
}

impl Groups {
    pub open spec fn size(self, group: bool) -> nat {
        if group {
            self.second
        } else {
            self.first
        }
    }

    pub open spec fn group_cover(self, group: bool) -> Rect {
        if group {
            self.second_cover
        } else {
            self.first_cover
        }
    }

    /// The groups that hold one seed each.
    pub open spec fn seeded(rects: Seq<Rect>, first: int, second: int) -> Groups {
        Groups {
            part: Seq::new(rects.len(), |i: int| None::<bool>).update(first, Some(false)).update(
                second,
                Some(true),
            ),
            first: 1,
            second: 1,
            first_cover: rects[first],
            second_cover: rects[second],
        }
    }

    /// With the box at `index` in the given group.
    pub open spec fn with(self, rects: Seq<Rect>, index: int, group: bool) -> Groups {
        let grown = self.group_cover(group).spec_combine(rects[index]);
        if group {
            Groups {
                part: self.part.update(index, Some(true)),
                second: self.second + 1,
                second_cover: grown,
                ..self
            }
        } else {
            Groups {
                part: self.part.update(index, Some(false)),
                first: self.first + 1,
                first_cover: grown,
                ..self
            }
        }
    }

    pub open spec fn growth(self, group: bool, rect: Rect) -> Double {
        increase(self.group_cover(group), rect)
    }

    /// The group that a box would make grow less, the first where it makes no difference.
    pub open spec fn preferred(self, rect: Rect) -> bool {
        self.growth(true, rect).spec_less(self.growth(false, rect))
    }

    /// How much better a box does in the group that it prefers.
    pub open spec fn preference(self, rect: Rect) -> Double {
        if self.preferred(rect) {
            self.growth(false, rect).spec_difference(self.growth(true, rect))
        } else {
            self.growth(true, rect).spec_difference(self.growth(false, rect))
        }
    }

    /// Of the first `n` boxes, the one without a group that should get one next: the first
    /// with the strongest preference, unless a later one prefers as strongly a group that is
    /// smaller.
    pub open spec fn next(self, rects: Seq<Rect>, n: nat) -> Option<int>
        decreases n,
    {
        if n == 0 {
            None
        } else {
            let i = n - 1;
            let best = self.next(rects, i as nat);
            if self.part[i] is Some {
                best
            } else if best is None {
                Some(i as int)
            } else {
                let here = self.preference(rects[i]);
                let there = self.preference(rects[best->0]);
                if there.spec_less(here) || (here == there && self.size(self.preferred(rects[i]))
                    < self.size(self.preferred(rects[best->0]))) {
                    Some(i as int)
                } else {
                    best
                }
            }
        }
    }

    /// Neither group is so large that the rest must go to the other.
    pub open spec fn undecided(self, total: nat) -> bool {
        &&& self.first + self.second < total
        &&& self.first < total - MIN_BRANCHES
        &&& self.second < total - MIN_BRANCHES
    }

    /// With boxes handed out by preference until one group is as large as it may be.
    pub open spec fn grown(self, rects: Seq<Rect>) -> Groups
        decreases rects.len() - self.first - self.second,
    {
        if self.undecided(rects.len()) {
            match self.next(rects, rects.len()) {
                Some(index) => self.with(rects, index, self.preferred(rects[index])).grown(rects),
                None => self,
            }
        } else {
            self
        }
    }

    /// With those of the first `n` boxes that have no group put in the given one.
    pub open spec fn filled(self, rects: Seq<Rect>, group: bool, n: nat) -> Groups
        decreases n,
    {
        if n == 0 {
            self
        } else {
            let before = self.filled(rects, group, (n - 1) as nat);
            if before.part[n - 1] is None {
                before.with(rects, n - 1, group)
            } else {
                before
            }
        }
    }

    /// With every box in a group.
    pub open spec fn completed(self, rects: Seq<Rect>) -> Groups {
        if self.first + self.second < rects.len() {
            self.filled(rects, self.first >= rects.len() - MIN_BRANCHES, rects.len())
        } else {
            self
        }
    }
}

/// In which of two nodes each branch of an overfull node goes, `false` for the node itself.
#[verifier::opaque]
pub open spec fn split_parts(rects: Seq<Rect>) -> Seq<Option<bool>> {
    let (a, b) = seeds(rects);
    Groups::seeded(rects, a, b).grown(rects).completed(rects).part
}

/// Those of the first `n` branches that go to the given node.
pub open spec fn chosen<T>(branches: Seq<T>, parts: Seq<Option<bool>>, other: bool, n: nat) -> Seq<
    T,
>
    decreases n,
{
    if n == 0 {
        Seq::empty()
    } else {
        let before = chosen(branches, parts, other, (n - 1) as nat);
        if (parts[n - 1] == Some(false)) != other {
            before.push(branches[n - 1])
        } else {
            before
        }
    }
}

/// A node of the given level that holds `branches` and one more, and what it had to
/// hand to a new node because it was full.
pub open spec fn added(level: nat, branches: Seq<(Rect, Tree)>, branch: (Rect, Tree)) -> (
    Tree,
    Option<Tree>,
) {
    let all = branches.push(branch);
    if branches.len() < MAX_BRANCHES {
        (Tree::Inner(level, all), None)
    } else {
        let parts = split_parts(rects_of(all));
        (
            Tree::Inner(level, chosen(all, parts, false, all.len())),
            Some(Tree::Inner(level, chosen(all, parts, true, all.len()))),
        )
    }
}

impl Tree {
    pub open spec fn level(self) -> nat {
        match self {
            Tree::Inner(level, _) => level,
            Tree::Item(_) => 0,
        }
    }

    pub open spec fn branches(self) -> Seq<(Rect, Tree)> {
        match self {
            Tree::Inner(_, branches) => branches,
            Tree::Item(_) => Seq::empty(),
        }
    }

    pub open spec fn own_cover(self) -> Rect {
        cover(self.branches())
    }

    /// With `branch` put into a node of the given level, and the new node beside this one
    /// where this one was split.
    pub open spec fn inserted(self, branch: (Rect, Tree), target: nat) -> (Tree, Option<Tree>)
        decreases self,
    {
        match self {
            Tree::Item(_) => (self, None),
            Tree::Inner(level, branches) => {
                let at = picked(rects_of(branches), branch.0, branches.len());
                if level == target || !(0 <= at < branches.len()) {
                    added(level, branches, branch)
                } else {
                    let (child, beside) = branches[at].1.inserted(branch, target);
                    let updated = branches.update(at, (child.own_cover(), child));
                    match beside {
                        None => (Tree::Inner(level, updated), None),
                        Some(node) => added(level, updated, (node.own_cover(), node)),
                    }
                }
            },
        }
    }

    /// With `branch` put in, below a new root where the old one was split.
    pub open spec fn rooted(self, branch: (Rect, Tree), target: nat) -> Tree {
        let (root, beside) = self.inserted(branch, target);
        match beside {
            None => root,
            Some(node) => Tree::Inner(
                root.level() + 1,
                seq![(root.own_cover(), root), (node.own_cover(), node)],
            ),
        }
    }

    /// With the first `n` of `branches` put in, one by one.
    pub open spec fn rooted_all(self, branches: Seq<(Rect, Tree)>, target: nat, n: nat) -> Tree
        decreases n,
    {
        if n == 0 {
            self
        } else {
            self.rooted_all(branches, target, (n - 1) as nat).rooted(branches[n - 1], target)
        }
    }

    /// With the branches of `nodes` put back at their levels, the last node first.
    pub open spec fn restored(self, nodes: Seq<Tree>) -> Tree
        decreases nodes.len(),
    {
        if nodes.len() == 0 {
            self
        } else {
            let node = nodes.last();
            self.rooted_all(node.branches(), node.level(), node.branches().len()).restored(
                nodes.drop_last(),
            )
        }
    }

    /// The root's only child in place of a root that holds but one.
    pub open spec fn shortened(self) -> Tree {
        if self.level() > 0 && self.branches().len() == 1 {
            self.branches()[0].1
        } else {
            self
        }
    }

    /// The items, depth first.
    pub open spec fn order(self) -> Seq<nat>
        decreases self, self.branches().len() + 1,
    {
        match self {
            Tree::Item(item) => seq![item],
            Tree::Inner(_, branches) => self.order_upto(branches.len()),
        }
    }

    /// The items of the first `n` branches.
    pub open spec fn order_upto(self, n: nat) -> Seq<nat>
        decreases self, n,
        when n <= self.branches().len()
    {
        if n == 0 {
            Seq::empty()
        } else {
            self.order_upto((n - 1) as nat) + self.branches()[n - 1].1.order()
        }
    }
}

/// `branches` without the one at `at`, whose place the last one takes.
pub open spec fn swap_removed(branches: Seq<(Rect, Tree)>, at: int) -> Seq<(Rect, Tree)> {
    branches.update(at, branches.last()).drop_last()
}

/// Where the leaf branch of `item` stands, from `from` on.
pub open spec fn item_at(branches: Seq<(Rect, Tree)>, item: nat, from: nat) -> Option<int>
    decreases branches.len() - from,
{
    if from >= branches.len() {
        None
    } else if branches[from as int].1 == Tree::Item(item) {
        Some(from as int)
    } else {
        item_at(branches, item, from + 1)
    }
}

impl Tree {
    /// Without `item`, which is looked for under the boxes that `rect` overlaps, and the nodes
    /// that became too small and left the tree, the lowest first. `None` if it is not found.
    pub open spec fn removed(self, rect: Rect, item: nat) -> Option<(Tree, Seq<Tree>)>
        decreases self, self.branches().len() + 1,
    {
        match self {
            Tree::Item(_) => None,
            Tree::Inner(level, branches) => if level == 0 {
                match item_at(branches, item, 0) {
                    Some(at) => Some((Tree::Inner(level, swap_removed(branches, at)), Seq::empty())),
                    None => None,
                }
            } else {
                self.removed_from(rect, item, 0)
            },
        }
    }

    /// The same, looking only under the branches from `from` on.
    pub open spec fn removed_from(self, rect: Rect, item: nat, from: nat) -> Option<
        (Tree, Seq<Tree>),
    >
        decreases self, self.branches().len() - from,
    {
        let branches = self.branches();
        if from >= branches.len() {
            None
        } else if !rect.spec_overlaps(branches[from as int].0) {
            self.removed_from(rect, item, from + 1)
        } else {
            match branches[from as int].1.removed(rect, item) {
                None => self.removed_from(rect, item, from + 1),
                Some((child, gone)) => if child.branches().len() >= MIN_BRANCHES {
                    Some(
                        (
                            Tree::Inner(
                                self.level(),
                                branches.update(from as int, (child.own_cover(), child)),
                            ),
                            gone,
                        ),
                    )
                } else {
                    Some(
                        (
                            Tree::Inner(self.level(), swap_removed(branches, from as int)),
                            gone.push(child),
                        ),
                    )
                },
            }
        }
    }
}

/// An item to index: its type, the box under which it enters the index, and the box that
/// it has once its symbol is refreshed.
pub ghost struct Entry {
    pub item_type: i32,
    pub initial: Rect,
    pub resolved: Rect,
}

/// The index, and under which box each item stands in it.
pub ghost struct Indexed {
    pub root: Tree,
    pub current: Seq<Rect>,
}

/// The index of the first `n` entries.
pub open spec fn index_of(entries: Seq<Entry>, n: nat) -> Tree
    decreases n,
{
    if n == 0 {
        Tree::Inner(0, Seq::empty())
    } else {
        let item = (n - 1) as nat;
        index_of(entries, item).rooted((entries[item as int].initial, Tree::Item(item)), 0)
    }
}

impl Indexed {
    /// With `item` taken out and put back under its resolved box.
    pub open spec fn refreshed(self, entries: Seq<Entry>, item: nat) -> Indexed {
        let (rest, gone) = self.root.removed(self.current[item as int], item)->0;
        let resolved = entries[item as int].resolved;
        Indexed {
            root: rest.restored(gone).shortened().rooted((resolved, Tree::Item(item)), 0),
            current: self.current.update(item as int, resolved),
        }
    }

    /// With the symbols among the first `n` items of `order` refreshed, one by one.
    pub open spec fn refreshed_along(self, entries: Seq<Entry>, order: Seq<nat>, n: nat) -> Indexed
        decreases n,
    {
        if n == 0 {
            self
        } else {
            let before = self.refreshed_along(entries, order, (n - 1) as nat);
            let item = order[n - 1];
            if entries[item as int].item_type == SYMBOL_TYPE {
                before.refreshed(entries, item)
            } else {
                before
            }
        }
    }

    /// With all symbols refreshed `passes` times, each time in the order of the index.
    pub open spec fn refreshed_times(self, entries: Seq<Entry>, passes: nat) -> Indexed
        decreases passes,
    {
        if passes == 0 {
            self
        } else {
            let before = self.refreshed_times(entries, (passes - 1) as nat);
            let order = before.root.order();
            before.refreshed_along(entries, order, order.len())
        }
    }
}

/// The index of all entries after `passes` refreshes.
pub open spec fn built(entries: Seq<Entry>, passes: nat) -> Indexed {
    Indexed {
        root: index_of(entries, entries.len()),
        current: entries.map_values(|e: Entry| e.initial),
    }.refreshed_times(entries, passes)
}

/// The order in which the items of the entries are visited.
pub open spec fn visiting_order(entries: Seq<Entry>, passes: nat) -> Seq<nat> {
    built(entries, passes).root.order()
}

/// How often `item` occurs below a node.
pub open spec fn tally(t: Tree, item: nat) -> nat
    decreases t,
{
    match t {
        Tree::Item(own) => if own == item {
            1
        } else {
            0
        },
        Tree::Inner(_, branches) => tally_of(branches, item),
    }
}

pub open spec fn tally_of(branches: Seq<(Rect, Tree)>, item: nat) -> nat
    decreases branches,
{
    if branches.len() == 0 {
        0
    } else {
        tally_of(branches.drop_last(), item) + tally(branches.last().1, item)
    }
}

/// `b` may stand in a node of the given level.
pub open spec fn sound_branch(b: (Rect, Tree), level: nat) -> bool
    decreases b, 0nat,
{
    &&& b.0.wf()
    &&& if level == 0 {
        b.1 is Item
    } else {
        sound(b.1, (level - 1) as nat, MIN_BRANCHES as nat) && b.0 == b.1.own_cover()
    }
}

/// `t` is a node of the given level with at least `low` branches and no more than fit,
/// whose branches may stand there, and so on below.
pub open spec fn sound(t: Tree, level: nat, low: nat) -> bool
    decreases t, 1nat,
{
    match t {
        Tree::Item(_) => false,
        Tree::Inner(own, branches) => {
            &&& own == level
            &&& low <= branches.len() <= MAX_BRANCHES
            &&& forall|i: int|
                0 <= i < branches.len() ==> sound_branch(#[trigger] branches[i], level)
        },
    }
}

/// Every item stands under the box that `current` gives it.
pub open spec fn placed(t: Tree, current: Seq<Rect>) -> bool
    decreases t,
{
    match t {
        Tree::Item(item) => item < current.len(),
        Tree::Inner(_, branches) => forall|i: int|
            0 <= i < branches.len() ==> placed_branch(#[trigger] branches[i], current),
    }
}

pub open spec fn placed_branch(b: (Rect, Tree), current: Seq<Rect>) -> bool
    decreases b,
{
    &&& placed(b.1, current)
    &&& b.1 matches Tree::Item(item) ==> b.0 == current[item as int]
}

/// Every item below `branches` stands under the box that `current` gives it.
pub open spec fn all_placed(branches: Seq<(Rect, Tree)>, current: Seq<Rect>) -> bool {
    forall|i: int| 0 <= i < branches.len() ==> placed_branch(#[trigger] branches[i], current)
}

proof fn lemma_tally_push(branches: Seq<(Rect, Tree)>, b: (Rect, Tree), item: nat)
    ensures
        tally_of(branches.push(b), item) == tally_of(branches, item) + tally(b.1, item),
{
    assert(branches.push(b).drop_last() =~= branches);
}

proof fn lemma_tally_update(branches: Seq<(Rect, Tree)>, i: int, b: (Rect, Tree), item: nat)
    requires
        0 <= i < branches.len(),
    ensures
        tally_of(branches.update(i, b), item) + tally(branches[i].1, item) == tally_of(
            branches,
            item,
        ) + tally(b.1, item),
    decreases branches.len(),
{
    let t = branches.update(i, b);
    let rest = branches.drop_last();
    if i == branches.len() - 1 {
        assert(t.drop_last() =~= rest);
    } else {
        assert(t.drop_last() =~= rest.update(i, b));
        lemma_tally_update(rest, i, b, item);
    }
}

proof fn lemma_tally_swap_removed(branches: Seq<(Rect, Tree)>, i: int, item: nat)
    requires
        0 <= i < branches.len(),
    ensures
        tally_of(swap_removed(branches, i), item) + tally(branches[i].1, item) == tally_of(
            branches,
            item,
        ),
{
    let last = branches.last();
    if i == branches.len() - 1 {
        assert(swap_removed(branches, i) =~= branches.drop_last());
    } else {
        assert(swap_removed(branches, i) =~= branches.drop_last().update(i, last));
        lemma_tally_update(branches.drop_last(), i, last, item);
    }
}

/// An item below a node is below one of its branches.
proof fn lemma_tally_somewhere(branches: Seq<(Rect, Tree)>, item: nat) -> (i: int)
    requires
        tally_of(branches, item) > 0,
    ensures
        0 <= i < branches.len(),
        tally(branches[i].1, item) > 0,
    decreases branches.len(),
{
    if tally(branches.last().1, item) > 0 {
        branches.len() - 1
    } else {
        lemma_tally_somewhere(branches.drop_last(), item)
    }
}

/// The depth-first order holds each item as often as the tree does.
pub proof fn order_keeps_items(t: Tree, item: nat)
    ensures
        t.order().to_multiset().count(item) == tally(t, item),
    decreases t, t.branches().len() + 1,
{
    match t {
        Tree::Item(own) => {
            let s = Seq::<nat>::empty();
            assert(seq![own] =~= s.push(own));
            vstd::seq_lib::to_multiset_build(s, own);
            vstd::seq_lib::to_multiset_len(s);
            vstd::seq_lib::to_multiset_contains(s, item);
        },
        Tree::Inner(_, branches) => {
            lemma_order_upto(t, branches.len(), item);
            assert(branches.take(branches.len() as int) =~= branches);
        },
    }
}

proof fn lemma_order_upto(t: Tree, n: nat, item: nat)
    requires
        n <= t.branches().len(),
    ensures
        t.order_upto(n).to_multiset().count(item) == tally_of(t.branches().take(n as int), item),
    decreases t, n,
{
    let branches = t.branches();
    if n == 0 {
        vstd::seq_lib::to_multiset_contains(t.order_upto(0), item);
    } else {
        lemma_order_upto(t, (n - 1) as nat, item);
        order_keeps_items(branches[n - 1].1, item);
        let some = branches.take(n as int);
        assert(some.drop_last() =~= branches.take(n - 1));
        vstd::seq_lib::lemma_multiset_commutative(
            t.order_upto((n - 1) as nat),
            branches[n - 1].1.order(),
        );
    }
}

proof fn lemma_combine(a: Rect, b: Rect)
    requires
        a.wf(),
        b.wf(),
    ensures
        a.spec_combine(b).wf(),
        a.spec_combine(b).encloses(a),
        a.spec_combine(b).encloses(b),
{
}

/// The cover of boxes is a box round each of them.
proof fn lemma_cover(rects: Seq<Rect>)
    requires
        rects.len() > 0,
        forall|i: int| 0 <= i < rects.len() ==> (#[trigger] rects[i]).wf(),
    ensures
        cover_of(rects).wf(),
        forall|i: int| 0 <= i < rects.len() ==> cover_of(rects).encloses(#[trigger] rects[i]),
    decreases rects.len(),
{
    if rects.len() > 1 {
        let rest = rects.drop_last();
        assert forall|i: int| 0 <= i < rest.len() implies (#[trigger] rest[i]).wf() by {
            assert(rest[i] == rects[i]);
        }
        lemma_cover(rest);
        lemma_combine(cover_of(rest), rects.last());
        assert forall|i: int| 0 <= i < rects.len() implies cover_of(rects).encloses(
            #[trigger] rects[i],
        ) by {
            if i < rest.len() {
                assert(rest[i] == rects[i]);
            }
        }
    }
}

/// A sound node that is not empty has a proper cover, which encloses its branches.
pub proof fn lemma_own_cover(t: Tree, level: nat, low: nat)
    requires
        sound(t, level, low),
        t.branches().len() > 0,
    ensures
        t.own_cover().wf(),
        forall|i: int|
            0 <= i < t.branches().len() ==> t.own_cover().encloses((#[trigger] t.branches()[i]).0),
{
    let rects = rects_of(t.branches());
    assert forall|i: int| 0 <= i < rects.len() implies (#[trigger] rects[i]).wf() by {
        assert(sound_branch(t.branches()[i], level));
    }
    lemma_cover(rects);
    assert forall|i: int| 0 <= i < t.branches().len() implies t.own_cover().encloses(
        (#[trigger] t.branches()[i]).0,
    ) by {
        assert(rects[i] == t.branches()[i].0);
    }
}

/// How many of the first `n` boxes are in the given group.
pub open spec fn members(part: Seq<Option<bool>>, group: bool, n: nat) -> nat
    decreases n,
{
    if n == 0 {
        0
    } else {
        members(part, group, (n - 1) as nat) + if part[n - 1] == Some(group) {
            1nat
        } else {
            0nat
        }
    }
}

proof fn lemma_members_update(part: Seq<Option<bool>>, index: int, group: bool, other: bool, n: nat)
    requires
        0 <= index < part.len(),
        part[index] is None,
        n <= part.len(),
    ensures
        members(part.update(index, Some(group)), other, n) == members(part, other, n) + (if other
            == group && index < n {
            1nat
        } else {
            0nat
        }),
    decreases n,
{
    if n > 0 {
        lemma_members_update(part, index, group, other, (n - 1) as nat);
    }
}

pub proof fn lemma_members_total(part: Seq<Option<bool>>, n: nat)
    requires
        n <= part.len(),
    ensures
        members(part, false, n) + members(part, true, n) <= n,
        (forall|i: int| 0 <= i < n ==> part[i] is Some) ==> members(part, false, n) + members(
            part,
            true,
            n,
        ) == n,
        members(part, false, n) + members(part, true, n) == n ==> forall|i: int|
            0 <= i < n ==> part[i] is Some,
    decreases n,
{
    if n > 0 {
        lemma_members_total(part, (n - 1) as nat);
        if part[n - 1] is Some {
            assert(part[n - 1] == Some(false) || part[n - 1] == Some(true)) by {
                assert(part[n - 1]->0 || !part[n - 1]->0);
            }
        }
    }
}

impl Groups {
    /// The counts are those of the boxes in the groups.
    pub open spec fn counted(self, total: nat) -> bool {
        &&& self.part.len() == total
        &&& self.first == members(self.part, false, total)
        &&& self.second == members(self.part, true, total)
    }
}

pub proof fn lemma_with(g: Groups, rects: Seq<Rect>, index: int, group: bool)
    requires
        g.counted(rects.len()),
        0 <= index < rects.len(),
        g.part[index] is None,
    ensures
        g.with(rects, index, group).counted(rects.len()),
{
    lemma_members_update(g.part, index, group, false, rects.len());
    lemma_members_update(g.part, index, group, true, rects.len());
}

pub proof fn lemma_next(g: Groups, rects: Seq<Rect>, n: nat)
    requires
        g.part.len() == rects.len(),
        n <= rects.len(),
    ensures
        g.next(rects, n) matches Some(i) ==> 0 <= i < n && g.part[i] is None,
        g.next(rects, n) is None ==> forall|i: int| 0 <= i < n ==> g.part[i] is Some,
    decreases n,
{
    if n > 0 {
        lemma_next(g, rects, (n - 1) as nat);
    }
}

proof fn lemma_grown(g: Groups, rects: Seq<Rect>)
    requires
        g.counted(rects.len()),
        rects.len() == MAX_BRANCHES + 1,
        1 <= g.first <= MAX_BRANCHES + 1 - MIN_BRANCHES,
        1 <= g.second <= MAX_BRANCHES + 1 - MIN_BRANCHES,
    ensures
        g.grown(rects).counted(rects.len()),
        !g.grown(rects).undecided(rects.len()),
        1 <= g.grown(rects).first <= MAX_BRANCHES + 1 - MIN_BRANCHES,
        1 <= g.grown(rects).second <= MAX_BRANCHES + 1 - MIN_BRANCHES,
    decreases rects.len() - g.first - g.second,
{
    if g.undecided(rects.len()) {
        lemma_next(g, rects, rects.len());
        lemma_members_total(g.part, rects.len());
        let index = g.next(rects, rects.len())->0;
        let group = g.preferred(rects[index]);
        lemma_with(g, rects, index, group);
        lemma_grown(g.with(rects, index, group), rects);
    }
}

proof fn lemma_filled(g: Groups, rects: Seq<Rect>, group: bool, n: nat)
    requires
        g.counted(rects.len()),
        n <= rects.len(),
    ensures
        g.filled(rects, group, n).counted(rects.len()),
        g.filled(rects, group, n).size(!group) == g.size(!group),
        forall|i: int| 0 <= i < n ==> g.filled(rects, group, n).part[i] is Some,
    decreases n,
{
    if n > 0 {
        lemma_filled(g, rects, group, (n - 1) as nat);
        let before = g.filled(rects, group, (n - 1) as nat);
        if before.part[n - 1] is None {
            lemma_with(before, rects, n - 1, group);
        }
    }
}

proof fn lemma_worst_with(rects: Seq<Rect>, best: (int, int), left: int, to: int)
    requires
        0 <= best.0 < best.1 < rects.len(),
        0 <= left,
        to <= rects.len(),
    ensures
        0 <= worst_with(rects, best, left, to).0 < worst_with(rects, best, left, to).1 < rects.len(),
    decreases to - left,
{
    if to > left + 1 {
        lemma_worst_with(rects, best, left, to - 1);
    }
}

proof fn lemma_worst_before(rects: Seq<Rect>, to: int)
    requires
        rects.len() >= 2,
        to <= rects.len(),
    ensures
        0 <= worst_before(rects, to).0 < worst_before(rects, to).1 < rects.len(),
    decreases to,
{
    if to > 0 {
        lemma_worst_before(rects, to - 1);
        lemma_worst_with(rects, worst_before(rects, to - 1), to - 1, rects.len() as int);
    }
}

pub proof fn lemma_seeded(rects: Seq<Rect>, a: int, b: int)
    requires
        0 <= a < rects.len(),
        0 <= b < rects.len(),
        a != b,
    ensures
        Groups::seeded(rects, a, b).counted(rects.len()),
{
    let total = rects.len();
    let none = Seq::new(total, |i: int| None::<bool>);
    lemma_none_members(none, total);
    lemma_members_update(none, a, false, false, total);
    lemma_members_update(none, a, false, true, total);
    let one = none.update(a, Some(false));
    lemma_members_update(one, b, true, false, total);
    lemma_members_update(one, b, true, true, total);
}

proof fn lemma_none_members(none: Seq<Option<bool>>, n: nat)
    requires
        n <= none.len(),
        forall|i: int| 0 <= i < none.len() ==> none[i] is None,
    ensures
        members(none, false, n) == 0,
        members(none, true, n) == 0,
    decreases n,
{
    if n > 0 {
        lemma_none_members(none, (n - 1) as nat);
    }
}

/// A split leaves every branch in one of two nodes, and neither of them underfull.
pub proof fn lemma_split_parts(rects: Seq<Rect>)
    requires
        rects.len() == MAX_BRANCHES + 1,
    ensures
        split_parts(rects).len() == rects.len(),
        forall|i: int| 0 <= i < rects.len() ==> split_parts(rects)[i] is Some,
        MIN_BRANCHES <= members(split_parts(rects), false, rects.len()) <= MAX_BRANCHES,
        MIN_BRANCHES <= members(split_parts(rects), true, rects.len()) <= MAX_BRANCHES,
{
    reveal(split_parts);
    let (a, b) = seeds(rects);
    lemma_worst_before(rects, rects.len() - 1);
    let g = Groups::seeded(rects, a, b);
    lemma_seeded(rects, a, b);
    lemma_grown(g, rects);
    let h = g.grown(rects);
    if h.first + h.second < rects.len() {
        lemma_filled(h, rects, h.first >= rects.len() - MIN_BRANCHES, rects.len());
    }
    lemma_members_total(h.part, rects.len());
    lemma_members_total(h.completed(rects).part, rects.len());
}

proof fn lemma_chosen(
    branches: Seq<(Rect, Tree)>,
    parts: Seq<Option<bool>>,
    other: bool,
    n: nat,
    level: nat,
    current: Seq<Rect>,
)
    requires
        n <= branches.len() == parts.len(),
        forall|i: int| 0 <= i < branches.len() ==> sound_branch(#[trigger] branches[i], level),
        forall|i: int| 0 <= i < parts.len() ==> parts[i] is Some,
    ensures
        chosen(branches, parts, other, n).len() == members(parts, other, n),
        forall|i: int|
            0 <= i < chosen(branches, parts, other, n).len() ==> sound_branch(
                #[trigger] chosen(branches, parts, other, n)[i],
                level,
            ),
        all_placed(branches, current) ==> all_placed(chosen(branches, parts, other, n), current),
    decreases n,
{
    if n > 0 {
        lemma_chosen(branches, parts, other, (n - 1) as nat, level, current);
        assert(sound_branch(branches[n - 1], level));
        if all_placed(branches, current) {
            assert(placed_branch(branches[n - 1], current));
        }
        assert(parts[n - 1] is Some);
        assert(parts[n - 1] == Some(false) || parts[n - 1] == Some(true)) by {
            assert(parts[n - 1]->0 || !parts[n - 1]->0);
        }
    }
}

proof fn lemma_chosen_tally(branches: Seq<(Rect, Tree)>, parts: Seq<Option<bool>>, n: nat, item: nat)
    requires
        n <= branches.len(),
    ensures
        tally_of(chosen(branches, parts, false, n), item) + tally_of(
            chosen(branches, parts, true, n),
            item,
        ) == tally_of(branches.take(n as int), item),
    decreases n,
{
    let some = branches.take(n as int);
    if n > 0 {
        lemma_chosen_tally(branches, parts, (n - 1) as nat, item);
        assert(some.drop_last() =~= branches.take(n - 1));
        lemma_tally_push(chosen(branches, parts, false, (n - 1) as nat), branches[n - 1], item);
        lemma_tally_push(chosen(branches, parts, true, (n - 1) as nat), branches[n - 1], item);
    }
}

/// Adding a branch keeps a node sound, and splits it into two sound ones where it is full.
proof fn lemma_added(
    level: nat,
    branches: Seq<(Rect, Tree)>,
    branch: (Rect, Tree),
    current: Seq<Rect>,
)
    requires
        branches.len() <= MAX_BRANCHES,
        forall|i: int| 0 <= i < branches.len() ==> sound_branch(#[trigger] branches[i], level),
        sound_branch(branch, level),
    ensures
        added(level, branches, branch).1 is None ==> sound(
            added(level, branches, branch).0,
            level,
            branches.len() + 1,
        ),
        added(level, branches, branch).1 matches Some(node) ==> sound(
            added(level, branches, branch).0,
            level,
            MIN_BRANCHES as nat,
        ) && sound(node, level, MIN_BRANCHES as nat),
        all_placed(branches, current) && placed_branch(branch, current) ==> {
            &&& placed(added(level, branches, branch).0, current)
            &&& added(level, branches, branch).1 matches Some(node) ==> placed(node, current)
        },
{
    let all = branches.push(branch);
    assert forall|i: int| 0 <= i < all.len() implies sound_branch(#[trigger] all[i], level) by {
        if i < branches.len() {
            assert(all[i] == branches[i]);
        }
    }
    if all_placed(branches, current) && placed_branch(branch, current) {
        assert forall|i: int| 0 <= i < all.len() implies placed_branch(
            #[trigger] all[i],
            current,
        ) by {
            if i < branches.len() {
                assert(all[i] == branches[i]);
            }
        }
    }
    if branches.len() == MAX_BRANCHES {
        let rects = rects_of(all);
        lemma_split_parts(rects);
        lemma_chosen(all, split_parts(rects), false, all.len(), level, current);
        lemma_chosen(all, split_parts(rects), true, all.len(), level, current);
    }
}

proof fn lemma_added_tally(
    level: nat,
    branches: Seq<(Rect, Tree)>,
    branch: (Rect, Tree),
    item: nat,
)
    ensures
        tally(added(level, branches, branch).0, item) + (match added(level, branches, branch).1 {
            Some(node) => tally(node, item),
            None => 0,
        }) == tally_of(branches, item) + tally(branch.1, item),
{
    let all = branches.push(branch);
    lemma_tally_push(branches, branch, item);
    lemma_chosen_tally(all, split_parts(rects_of(all)), all.len(), item);
    assert(all.take(all.len() as int) =~= all);
}

pub proof fn lemma_picked(rects: Seq<Rect>, rect: Rect, n: nat)
    ensures
        0 <= picked(rects, rect, n),
        n > 0 ==> picked(rects, rect, n) < n,
    decreases n,
{
    if n > 1 {
        lemma_picked(rects, rect, (n - 1) as nat);
    }
}

/// Inserting keeps a node sound and every item under its box. A node that was split leaves
/// two that are not underfull; one that was not has no fewer branches than before.
pub proof fn inserted_is_sound(
    t: Tree,
    level: nat,
    low: nat,
    branch: (Rect, Tree),
    target: nat,
    current: Seq<Rect>,
)
    requires
        sound(t, level, low),
        target <= level,
        target < level ==> t.branches().len() > 0,
        sound_branch(branch, target),
    ensures
        t.inserted(branch, target).1 is None ==> sound(
            t.inserted(branch, target).0,
            level,
            t.branches().len(),
        ) && t.inserted(branch, target).0.branches().len() > 0,
        t.inserted(branch, target).1 matches Some(node) ==> sound(
            t.inserted(branch, target).0,
            level,
            MIN_BRANCHES as nat,
        ) && sound(node, level, MIN_BRANCHES as nat),
        placed(t, current) && placed_branch(branch, current) ==> {
            &&& placed(t.inserted(branch, target).0, current)
            &&& t.inserted(branch, target).1 matches Some(node) ==> placed(node, current)
        },
    decreases t,
{
    let branches = t.branches();
    let kept = placed(t, current) && placed_branch(branch, current);
    assert forall|i: int| 0 <= i < branches.len() implies sound_branch(
        #[trigger] branches[i],
        level,
    ) by {}
    if level == target {
        lemma_added(level, branches, branch, current);
    } else {
        let at = picked(rects_of(branches), branch.0, branches.len());
        lemma_picked(rects_of(branches), branch.0, branches.len());
        let under = branches[at].1;
        let below = (level - 1) as nat;
        assert(sound_branch(branches[at], level));
        if kept {
            assert(placed_branch(branches[at], current));
        }
        inserted_is_sound(under, below, MIN_BRANCHES as nat, branch, target, current);
        let (child, beside) = under.inserted(branch, target);
        assert(sound(child, below, MIN_BRANCHES as nat));
        lemma_own_cover(child, below, MIN_BRANCHES as nat);
        let entry = (child.own_cover(), child);
        let updated = branches.update(at, entry);
        assert(sound_branch(entry, level));
        assert forall|i: int| 0 <= i < updated.len() implies sound_branch(
            #[trigger] updated[i],
            level,
        ) by {
            if i != at {
                assert(updated[i] == branches[i]);
            }
        }
        if kept {
            assert(placed_branch(entry, current));
            assert forall|i: int| 0 <= i < updated.len() implies placed_branch(
                #[trigger] updated[i],
                current,
            ) by {
                if i != at {
                    assert(updated[i] == branches[i]);
                }
            }
        }
        if let Some(node) = beside {
            lemma_own_cover(node, below, MIN_BRANCHES as nat);
            lemma_added(level, updated, (node.own_cover(), node), current);
        }
    }
}

/// Inserting adds what is inserted and nothing else.
pub proof fn inserted_keeps_items(
    t: Tree,
    level: nat,
    low: nat,
    branch: (Rect, Tree),
    target: nat,
    item: nat,
)
    requires
        sound(t, level, low),
        target <= level,
        target < level ==> t.branches().len() > 0,
    ensures
        tally(t.inserted(branch, target).0, item) + (match t.inserted(branch, target).1 {
            Some(node) => tally(node, item),
            None => 0,
        }) == tally(t, item) + tally(branch.1, item),
    decreases t,
{
    let branches = t.branches();
    if level == target {
        lemma_added_tally(level, branches, branch, item);
    } else {
        let at = picked(rects_of(branches), branch.0, branches.len());
        lemma_picked(rects_of(branches), branch.0, branches.len());
        let under = branches[at].1;
        assert(sound_branch(branches[at], level));
        inserted_keeps_items(under, (level - 1) as nat, MIN_BRANCHES as nat, branch, target, item);
        let (child, beside) = under.inserted(branch, target);
        let entry = (child.own_cover(), child);
        lemma_tally_update(branches, at, entry, item);
        if let Some(node) = beside {
            lemma_added_tally(level, branches.update(at, entry), (node.own_cover(), node), item);
        }
    }
}

/// `t` may stand alone: it is sound, and empty only as a leaf.
pub open spec fn standing(t: Tree) -> bool {
    sound(t, t.level(), 0) && (t.level() > 0 ==> t.branches().len() > 0)
}

/// A standing tree whose root, unless it is a leaf, holds more than one branch.
pub open spec fn proper(t: Tree) -> bool {
    standing(t) && (t.level() > 0 ==> t.branches().len() > 1)
}

/// Putting a branch in below a root keeps the tree standing, and proper where it was.
pub proof fn rooted_stands(t: Tree, branch: (Rect, Tree), target: nat, current: Seq<Rect>)
    requires
        standing(t),
        target <= t.level(),
        sound_branch(branch, target),
        placed(t, current),
        placed_branch(branch, current),
    ensures
        standing(t.rooted(branch, target)),
        proper(t) ==> proper(t.rooted(branch, target)),
        t.rooted(branch, target).level() >= t.level(),
        placed(t.rooted(branch, target), current),
{
    let level = t.level();
    inserted_is_sound(t, level, 0, branch, target, current);
    let (root, beside) = t.inserted(branch, target);
    if let Some(node) = beside {
        lemma_own_cover(root, level, MIN_BRANCHES as nat);
        lemma_own_cover(node, level, MIN_BRANCHES as nat);
        let both = seq![(root.own_cover(), root), (node.own_cover(), node)];
        assert(sound_branch(both[0], level + 1));
        assert(sound_branch(both[1], level + 1));
        assert(placed_branch(both[0], current));
        assert(placed_branch(both[1], current));
        assert(t.rooted(branch, target) == Tree::Inner(level + 1, both));
        assert forall|i: int| 0 <= i < both.len() implies sound_branch(
            #[trigger] both[i],
            level + 1,
        ) && placed_branch(both[i], current) by {
            assert(i == 0 || i == 1);
        }
    }
}

pub proof fn rooted_keeps_items(t: Tree, branch: (Rect, Tree), target: nat, item: nat)
    requires
        standing(t),
        target <= t.level(),
    ensures
        tally(t.rooted(branch, target), item) == tally(t, item) + tally(branch.1, item),
{
    inserted_keeps_items(t, t.level(), 0, branch, target, item);
    let (root, beside) = t.inserted(branch, target);
    if let Some(node) = beside {
        let a = (root.own_cover(), root);
        let b = (node.own_cover(), node);
        let none = Seq::<(Rect, Tree)>::empty();
        assert(seq![a, b] =~= none.push(a).push(b));
        lemma_tally_push(none, a, item);
        lemma_tally_push(none.push(a), b, item);
    }
}

pub proof fn lemma_rooted_all(
    t: Tree,
    branches: Seq<(Rect, Tree)>,
    target: nat,
    n: nat,
    current: Seq<Rect>,
)
    requires
        standing(t),
        target <= t.level(),
        n <= branches.len(),
        forall|i: int| 0 <= i < branches.len() ==> sound_branch(#[trigger] branches[i], target),
        forall|i: int| 0 <= i < branches.len() ==> placed_branch(#[trigger] branches[i], current),
        placed(t, current),
    ensures
        standing(t.rooted_all(branches, target, n)),
        t.rooted_all(branches, target, n).level() >= t.level(),
        placed(t.rooted_all(branches, target, n), current),
    decreases n,
{
    if n > 0 {
        lemma_rooted_all(t, branches, target, (n - 1) as nat, current);
        assert(sound_branch(branches[n - 1], target));
        assert(placed_branch(branches[n - 1], current));
        rooted_stands(
            t.rooted_all(branches, target, (n - 1) as nat),
            branches[n - 1],
            target,
            current,
        );
    }
}

pub proof fn lemma_rooted_all_tally(
    t: Tree,
    branches: Seq<(Rect, Tree)>,
    target: nat,
    n: nat,
    current: Seq<Rect>,
    item: nat,
)
    requires
        standing(t),
        target <= t.level(),
        n <= branches.len(),
        forall|i: int| 0 <= i < branches.len() ==> sound_branch(#[trigger] branches[i], target),
        forall|i: int| 0 <= i < branches.len() ==> placed_branch(#[trigger] branches[i], current),
        placed(t, current),
    ensures
        tally(t.rooted_all(branches, target, n), item) == tally(t, item) + tally_of(
            branches.take(n as int),
            item,
        ),
    decreases n,
{
    let some = branches.take(n as int);
    if n > 0 {
        let before = (n - 1) as nat;
        lemma_rooted_all(t, branches, target, before, current);
        lemma_rooted_all_tally(t, branches, target, before, current, item);
        rooted_keeps_items(t.rooted_all(branches, target, before), branches[n - 1], target, item);
        assert(some.drop_last() =~= branches.take(n - 1));
    }
}

/// Nodes that left a tree and whose branches can go back into one of the given level.
pub open spec fn returnable(nodes: Seq<Tree>, level: nat) -> bool {
    forall|k: int|
        0 <= k < nodes.len() ==> sound(#[trigger] nodes[k], nodes[k].level(), 1)
            && nodes[k].level() < level
}

pub open spec fn nodes_placed(nodes: Seq<Tree>, current: Seq<Rect>) -> bool {
    forall|k: int| 0 <= k < nodes.len() ==> placed(#[trigger] nodes[k], current)
}

/// How often `item` occurs in `nodes`.
pub open spec fn tally_all(nodes: Seq<Tree>, item: nat) -> nat
    decreases nodes.len(),
{
    if nodes.len() == 0 {
        0
    } else {
        tally_all(nodes.drop_last(), item) + tally(nodes.last(), item)
    }
}

/// What the first branches hold is part of what all of them hold.
pub proof fn lemma_tally_take(branches: Seq<(Rect, Tree)>, n: int, item: nat)
    requires
        0 <= n <= branches.len(),
    ensures
        tally_of(branches.take(n), item) <= tally_of(branches, item),
        n < branches.len() ==> tally_of(branches.take(n), item) + tally(branches[n].1, item)
            <= tally_of(branches, item),
    decreases branches.len(),
{
    if n == branches.len() {
        assert(branches.take(n) =~= branches);
    } else {
        let rest = branches.drop_last();
        assert(branches.take(n) =~= rest.take(n));
        lemma_tally_take(rest, n, item);
        if n == branches.len() - 1 {
            assert(branches.take(n) =~= rest);
        }
    }
}

pub proof fn restored_stands(t: Tree, nodes: Seq<Tree>, current: Seq<Rect>)
    requires
        standing(t),
        returnable(nodes, t.level()),
        nodes_placed(nodes, current),
        placed(t, current),
    ensures
        standing(t.restored(nodes)),
        t.restored(nodes).level() >= t.level(),
        placed(t.restored(nodes), current),
    decreases nodes.len(),
{
    if nodes.len() > 0 {
        let node = nodes.last();
        assert(sound(nodes[nodes.len() - 1], node.level(), 1));
        lemma_rooted_all(t, node.branches(), node.level(), node.branches().len(), current);
        let next = t.rooted_all(node.branches(), node.level(), node.branches().len());
        let rest = nodes.drop_last();
        assert forall|k: int| 0 <= k < rest.len() implies {
            &&& sound(#[trigger] rest[k], rest[k].level(), 1)
            &&& rest[k].level() < next.level()
            &&& placed(rest[k], current)
        } by {
            assert(rest[k] == nodes[k]);
        }
        restored_stands(next, rest, current);
    }
}

pub proof fn restored_keeps_items(t: Tree, nodes: Seq<Tree>, current: Seq<Rect>, item: nat)
    requires
        standing(t),
        returnable(nodes, t.level()),
        nodes_placed(nodes, current),
        placed(t, current),
    ensures
        tally(t.restored(nodes), item) == tally(t, item) + tally_all(nodes, item),
    decreases nodes.len(),
{
    if nodes.len() > 0 {
        let node = nodes.last();
        assert(sound(nodes[nodes.len() - 1], node.level(), 1));
        let branches = node.branches();
        lemma_rooted_all(t, branches, node.level(), branches.len(), current);
        lemma_rooted_all_tally(t, branches, node.level(), branches.len(), current, item);
        assert(branches.take(branches.len() as int) =~= branches);
        let next = t.rooted_all(branches, node.level(), branches.len());
        let rest = nodes.drop_last();
        assert forall|k: int| 0 <= k < rest.len() implies {
            &&& sound(#[trigger] rest[k], rest[k].level(), 1)
            &&& rest[k].level() < next.level()
            &&& placed(rest[k], current)
        } by {
            assert(rest[k] == nodes[k]);
        }
        restored_keeps_items(next, rest, current, item);
    }
}

proof fn lemma_item_at(branches: Seq<(Rect, Tree)>, item: nat, from: nat)
    ensures
        item_at(branches, item, from) matches Some(at) ==> from <= at < branches.len()
            && branches[at].1 == Tree::Item(item),
        item_at(branches, item, from) is None ==> forall|i: int|
            from <= i < branches.len() ==> (#[trigger] branches[i]).1 != Tree::Item(item),
    decreases branches.len() - from,
{
    if from < branches.len() && branches[from as int].1 != Tree::Item(item) {
        lemma_item_at(branches, item, from + 1);
    }
}

/// The box of an item lies within the cover of every node above it.
proof fn lemma_item_covered(t: Tree, level: nat, low: nat, current: Seq<Rect>, item: nat)
    requires
        sound(t, level, low),
        placed(t, current),
        tally(t, item) > 0,
    ensures
        t.branches().len() > 0,
        t.own_cover().encloses(current[item as int]),
        current[item as int].wf(),
    decreases t,
{
    let branches = t.branches();
    let i = lemma_tally_somewhere(branches, item);
    lemma_own_cover(t, level, low);
    assert(sound_branch(branches[i], level));
    assert(placed_branch(branches[i], current));
    if level > 0 {
        lemma_item_covered(
            branches[i].1,
            (level - 1) as nat,
            MIN_BRANCHES as nat,
            current,
            item,
        );
    }
}

/// An item that the tree holds is found.
pub proof fn removed_finds(t: Tree, level: nat, low: nat, current: Seq<Rect>, item: nat)
    requires
        sound(t, level, low),
        placed(t, current),
        tally(t, item) > 0,
    ensures
        t.removed(current[item as int], item) is Some,
    decreases t, t.branches().len() + 1,
{
    let branches = t.branches();
    let i = lemma_tally_somewhere(branches, item);
    assert(sound_branch(branches[i], level));
    if level == 0 {
        lemma_item_at(branches, item, 0);
    } else {
        lemma_removed_finds_from(t, level, low, current, item, 0, i);
    }
}

proof fn lemma_removed_finds_from(
    t: Tree,
    level: nat,
    low: nat,
    current: Seq<Rect>,
    item: nat,
    from: nat,
    i: int,
)
    requires
        sound(t, level, low),
        level > 0,
        placed(t, current),
        from <= i < t.branches().len(),
        tally(t.branches()[i].1, item) > 0,
    ensures
        t.removed_from(current[item as int], item, from) is Some,
    decreases t, t.branches().len() - from,
{
    let branches = t.branches();
    if from == i {
        assert(sound_branch(branches[i], level));
        assert(placed_branch(branches[i], current));
        let below = (level - 1) as nat;
        lemma_item_covered(branches[i].1, below, MIN_BRANCHES as nat, current, item);
        removed_finds(branches[i].1, below, MIN_BRANCHES as nat, current, item);
    } else {
        lemma_removed_finds_from(t, level, low, current, item, from + 1, i);
    }
}

/// The branches that are left, and one in another's place, may stand where they stood.
proof fn lemma_swap_removed(branches: Seq<(Rect, Tree)>, at: int, level: nat, current: Seq<Rect>)
    requires
        0 <= at < branches.len(),
        forall|i: int| 0 <= i < branches.len() ==> sound_branch(#[trigger] branches[i], level),
    ensures
        forall|i: int|
            0 <= i < branches.len() - 1 ==> sound_branch(
                #[trigger] swap_removed(branches, at)[i],
                level,
            ),
        all_placed(branches, current) ==> all_placed(swap_removed(branches, at), current),
{
    let rest = swap_removed(branches, at);
    assert forall|i: int| 0 <= i < rest.len() implies sound_branch(#[trigger] rest[i], level) && (
    all_placed(branches, current) ==> placed_branch(rest[i], current)) by {
        let from = if i == at {
            branches.len() - 1
        } else {
            i
        };
        assert(rest[i] == branches[from]);
    }
}

/// Removing takes at most one branch from the node, keeps it sound, and the nodes that left
/// can go back.
pub proof fn removed_is_sound(
    t: Tree,
    level: nat,
    low: nat,
    rect: Rect,
    item: nat,
    current: Seq<Rect>,
)
    requires
        sound(t, level, low),
    ensures
        t.removed(rect, item) matches Some((rest, gone)) ==> {
            &&& sound(rest, level, (t.branches().len() - 1) as nat)
            &&& t.branches().len() > 0
            &&& returnable(gone, level)
            &&& placed(t, current) ==> placed(rest, current) && nodes_placed(gone, current)
        },
    decreases t, t.branches().len() + 1,
{
    let branches = t.branches();
    if level == 0 {
        lemma_item_at(branches, item, 0);
        if let Some(at) = item_at(branches, item, 0) {
            lemma_swap_removed(branches, at, level, current);
        }
    } else {
        lemma_removed_from_is_sound(t, level, low, rect, item, current, 0);
    }
}

proof fn lemma_removed_from_is_sound(
    t: Tree,
    level: nat,
    low: nat,
    rect: Rect,
    item: nat,
    current: Seq<Rect>,
    from: nat,
)
    requires
        sound(t, level, low),
        level > 0,
    ensures
        t.removed_from(rect, item, from) matches Some((rest, gone)) ==> {
            &&& sound(rest, level, (t.branches().len() - 1) as nat)
            &&& t.branches().len() > 0
            &&& returnable(gone, level)
            &&& placed(t, current) ==> placed(rest, current) && nodes_placed(gone, current)
        },
    decreases t, t.branches().len() - from,
{
    let branches = t.branches();
    let kept = placed(t, current);
    if from >= branches.len() {
    } else if !rect.spec_overlaps(branches[from as int].0) {
        lemma_removed_from_is_sound(t, level, low, rect, item, current, from + 1);
    } else {
        let under = branches[from as int].1;
        let below = (level - 1) as nat;
        assert(sound_branch(branches[from as int], level));
        assert(kept ==> placed_branch(branches[from as int], current));
        removed_is_sound(under, below, MIN_BRANCHES as nat, rect, item, current);
        match under.removed(rect, item) {
            None => {
                lemma_removed_from_is_sound(t, level, low, rect, item, current, from + 1);
            },
            Some((child, gone)) => {
                if child.branches().len() >= MIN_BRANCHES {
                    lemma_own_cover(child, below, MIN_BRANCHES as nat);
                    let entry = (child.own_cover(), child);
                    let updated = branches.update(from as int, entry);
                    assert(sound_branch(entry, level));
                    assert(kept ==> placed_branch(entry, current));
                    assert forall|i: int| 0 <= i < updated.len() implies sound_branch(
                        #[trigger] updated[i],
                        level,
                    ) && (kept ==> placed_branch(updated[i], current)) by {
                        if i != from {
                            assert(updated[i] == branches[i]);
                        }
                    }
                } else {
                    lemma_swap_removed(branches, from as int, level, current);
                    let all = gone.push(child);
                    assert forall|k: int| 0 <= k < all.len() implies sound(
                        #[trigger] all[k],
                        all[k].level(),
                        1,
                    ) && all[k].level() < level && (kept ==> placed(all[k], current)) by {
                        if k < gone.len() {
                            assert(all[k] == gone[k]);
                        }
                    }
                }
            },
        }
    }
}

/// Removing takes out one occurrence of the item; the rest is in the tree or among the
/// nodes that left.
pub proof fn removed_keeps_items(
    t: Tree,
    level: nat,
    low: nat,
    rect: Rect,
    item: nat,
    other: nat,
)
    requires
        sound(t, level, low),
    ensures
        t.removed(rect, item) matches Some((rest, gone)) ==> tally(rest, other) + tally_all(
            gone,
            other,
        ) + (if other == item {
            1nat
        } else {
            0nat
        }) == tally(t, other),
    decreases t, t.branches().len() + 1,
{
    let branches = t.branches();
    if level == 0 {
        lemma_item_at(branches, item, 0);
        if let Some(at) = item_at(branches, item, 0) {
            lemma_tally_swap_removed(branches, at, other);
        }
    } else {
        lemma_removed_from_keeps_items(t, level, low, rect, item, other, 0);
    }
}

proof fn lemma_removed_from_keeps_items(
    t: Tree,
    level: nat,
    low: nat,
    rect: Rect,
    item: nat,
    other: nat,
    from: nat,
)
    requires
        sound(t, level, low),
        level > 0,
    ensures
        t.removed_from(rect, item, from) matches Some((rest, gone)) ==> tally(rest, other)
            + tally_all(gone, other) + (if other == item {
            1nat
        } else {
            0nat
        }) == tally(t, other),
    decreases t, t.branches().len() - from,
{
    let branches = t.branches();
    if from >= branches.len() {
    } else if !rect.spec_overlaps(branches[from as int].0) {
        lemma_removed_from_keeps_items(t, level, low, rect, item, other, from + 1);
    } else {
        let under = branches[from as int].1;
        assert(sound_branch(branches[from as int], level));
        removed_keeps_items(under, (level - 1) as nat, MIN_BRANCHES as nat, rect, item, other);
        match under.removed(rect, item) {
            None => {
                lemma_removed_from_keeps_items(t, level, low, rect, item, other, from + 1);
            },
            Some((child, gone)) => {
                if child.branches().len() >= MIN_BRANCHES {
                    lemma_tally_update(
                        branches,
                        from as int,
                        (child.own_cover(), child),
                        other,
                    );
                } else {
                    lemma_tally_swap_removed(branches, from as int, other);
                    assert(gone.push(child).drop_last() =~= gone);
                }
            },
        }
    }
}

/// How many of the items below `n` a tree holds, counted as often as they occur.
pub open spec fn total(t: Tree, n: nat) -> nat
    decreases n,
{
    if n == 0 {
        0
    } else {
        total(t, (n - 1) as nat) + tally(t, (n - 1) as nat)
    }
}

proof fn lemma_total_split(level: nat, branches: Seq<(Rect, Tree)>, n: nat)
    requires
        branches.len() > 0,
    ensures
        total(Tree::Inner(level, branches), n) == total(
            Tree::Inner(level, branches.drop_last()),
            n,
        ) + total(branches.last().1, n),
    decreases n,
{
    if n > 0 {
        lemma_total_split(level, branches, (n - 1) as nat);
    }
}

proof fn lemma_total_item(item: nat, n: nat)
    ensures
        total(Tree::Item(item), n) == (if item < n {
            1nat
        } else {
            0nat
        }),
    decreases n,
{
    if n > 0 {
        lemma_total_item(item, (n - 1) as nat);
    }
}

proof fn lemma_total_bound(t: Tree, n: nat)
    requires
        forall|item: nat| item < n ==> #[trigger] tally(t, item) <= 1,
    ensures
        total(t, n) <= n,
    decreases n,
{
    if n > 0 {
        lemma_total_bound(t, (n - 1) as nat);
    }
}

proof fn lemma_total_low(t: Tree, level: nat, low: nat, current: Seq<Rect>)
    requires
        sound(t, level, low),
        placed(t, current),
        t.branches().len() > 0,
    ensures
        total(t, current.len()) >= t.branches().len() + level,
    decreases t, t.branches().len() + 1,
{
    let branches = t.branches();
    lemma_total_low_upto(t, level, low, current, branches.len());
    assert(branches.take(branches.len() as int) =~= branches);
}

proof fn lemma_total_low_upto(t: Tree, level: nat, low: nat, current: Seq<Rect>, j: nat)
    requires
        sound(t, level, low),
        placed(t, current),
        0 < j <= t.branches().len(),
    ensures
        total(Tree::Inner(level, t.branches().take(j as int)), current.len()) >= j + level,
    decreases t, j,
{
    let n = current.len();
    let branches = t.branches();
    let some = branches.take(j as int);
    lemma_total_split(level, some, n);
    assert(some.drop_last() =~= branches.take(j - 1));
    let b = branches[j - 1];
    assert(sound_branch(b, level));
    assert(placed_branch(b, current));
    if level > 0 {
        lemma_total_low(b.1, (level - 1) as nat, MIN_BRANCHES as nat, current);
    } else {
        lemma_total_item(b.1->Item_0, n);
    }
    if j > 1 {
        lemma_total_low_upto(t, level, low, current, (j - 1) as nat);
    }
}

/// Where an insertion splits a root, the tree holds more items than it has levels.
pub proof fn split_root_is_low(t: Tree, branch: (Rect, Tree), target: nat, current: Seq<Rect>)
    requires
        standing(t),
        target <= t.level(),
        sound_branch(branch, target),
        placed(t, current),
        placed_branch(branch, current),
        t.inserted(branch, target).1 is Some,
        forall|item: nat|
            item < current.len() ==> #[trigger] tally(t, item) + tally(branch.1, item) <= 1,
    ensures
        t.level() < current.len(),
{
    inserted_is_sound(t, t.level(), 0, branch, target, current);
    let root = t.inserted(branch, target).0;
    assert forall|item: nat| item < current.len() implies #[trigger] tally(root, item) <= 1 by {
        inserted_keeps_items(t, t.level(), 0, branch, target, item);
        assert(tally(t, item) + tally(branch.1, item) <= 1);
    }
    lemma_total_bound(root, current.len());
    lemma_total_low(root, t.level(), MIN_BRANCHES as nat, current);
}

/// Moving an item that the tree does not hold leaves the others under their boxes.
pub proof fn lemma_placed_elsewhere(t: Tree, current: Seq<Rect>, item: nat, rect: Rect)
    requires
        placed(t, current),
        tally(t, item) == 0,
        item < current.len(),
    ensures
        placed(t, current.update(item as int, rect)),
    decreases t,
{
    if let Tree::Inner(level, branches) = t {
        assert forall|i: int| 0 <= i < branches.len() implies placed_branch(
            #[trigger] branches[i],
            current.update(item as int, rect),
        ) by {
            assert(placed_branch(branches[i], current));
            lemma_tally_member(branches, i, item);
            lemma_placed_elsewhere(branches[i].1, current, item, rect);
        }
    }
}

proof fn lemma_tally_member(branches: Seq<(Rect, Tree)>, i: int, item: nat)
    requires
        0 <= i < branches.len(),
    ensures
        tally(branches[i].1, item) <= tally_of(branches, item),
    decreases branches.len(),
{
    if i < branches.len() - 1 {
        lemma_tally_member(branches.drop_last(), i, item);
    }
}

/// A root that holds one branch gives way to its child, which loses nothing.
pub proof fn shortened_is_proper(t: Tree, current: Seq<Rect>)
    requires
        standing(t),
        placed(t, current),
    ensures
        proper(t.shortened()),
        placed(t.shortened(), current),
        forall|item: nat| #[trigger] tally(t.shortened(), item) == tally(t, item),
{
    if t.level() > 0 && t.branches().len() == 1 {
        let b = t.branches()[0];
        assert(sound_branch(b, t.level()));
        assert(placed_branch(b, current));
        assert forall|item: nat| #[trigger] tally(t.shortened(), item) == tally(t, item) by {
            let none = Seq::<(Rect, Tree)>::empty();
            assert(t.branches() =~= none.push(b));
            lemma_tally_push(none, b, item);
        }
    }
}

/// Every entry stands in the index once, under its current box.
pub open spec fn complete(x: Indexed, entries: Seq<Entry>) -> bool {
    &&& proper(x.root)
    &&& placed(x.root, x.current)
    &&& x.current.len() == entries.len()
    &&& forall|item: nat|
        #[trigger] tally(x.root, item) == (if item < entries.len() {
            1nat
        } else {
            0nat
        })
}

/// The boxes of the entries are proper.
pub open spec fn wf_entries(entries: Seq<Entry>) -> bool {
    forall|i: int|
        0 <= i < entries.len() ==> (#[trigger] entries[i]).initial.wf() && entries[i].resolved.wf()
}

pub proof fn lemma_index_of(entries: Seq<Entry>, n: nat, current: Seq<Rect>)
    requires
        wf_entries(entries),
        n <= entries.len(),
        current == entries.map_values(|e: Entry| e.initial),
    ensures
        proper(index_of(entries, n)),
        placed(index_of(entries, n), current),
        forall|item: nat|
            #[trigger] tally(index_of(entries, n), item) == (if item < n {
                1nat
            } else {
                0nat
            }),
    decreases n,
{
    if n > 0 {
        let last = (n - 1) as nat;
        lemma_index_of(entries, last, current);
        let before = index_of(entries, last);
        let branch = (entries[last as int].initial, Tree::Item(last));
        assert(current[last as int] == entries[last as int].initial);
        rooted_stands(before, branch, 0, current);
        assert forall|item: nat|
            #[trigger] tally(index_of(entries, n), item) == (if item < n {
                1nat
            } else {
                0nat
            }) by {
            rooted_keeps_items(before, branch, 0, item);
            assert(tally(before, item) == (if item < last {
                1nat
            } else {
                0nat
            }));
        }
    }
}

/// Refreshing an item keeps every entry in the index.
pub proof fn refreshed_is_complete(x: Indexed, entries: Seq<Entry>, item: nat)
    requires
        complete(x, entries),
        wf_entries(entries),
        item < entries.len(),
    ensures
        x.root.removed(x.current[item as int], item) is Some,
        complete(x.refreshed(entries, item), entries),
{
    let level = x.root.level();
    let low = x.root.branches().len();
    let rect = x.current[item as int];
    assert(sound(x.root, level, low));
    assert(tally(x.root, item) == 1);
    removed_finds(x.root, level, low, x.current, item);
    removed_is_sound(x.root, level, low, rect, item, x.current);
    let (rest, gone) = x.root.removed(rect, item)->0;
    assert(standing(rest));
    restored_stands(rest, gone, x.current);
    let again = rest.restored(gone);
    shortened_is_proper(again, x.current);
    let short = again.shortened();
    assert forall|other: nat|
        #[trigger] tally(short, other) == (if other < entries.len() && other != item {
            1nat
        } else {
            0nat
        }) by {
        removed_keeps_items(x.root, level, low, rect, item, other);
        restored_keeps_items(rest, gone, x.current, other);
        assert(tally(x.root, other) == (if other < entries.len() {
            1nat
        } else {
            0nat
        }));
    }
    assert(tally(short, item) == 0);
    let resolved = entries[item as int].resolved;
    let moved = x.current.update(item as int, resolved);
    lemma_placed_elsewhere(short, x.current, item, resolved);
    let branch = (resolved, Tree::Item(item));
    rooted_stands(short, branch, 0, moved);
    assert forall|other: nat|
        #[trigger] tally(x.refreshed(entries, item).root, other) == (if other < entries.len() {
            1nat
        } else {
            0nat
        }) by {
        rooted_keeps_items(short, branch, 0, other);
        assert(tally(short, other) == (if other < entries.len() && other != item {
            1nat
        } else {
            0nat
        }));
    }
}

pub proof fn refreshed_along_is_complete(
    x: Indexed,
    entries: Seq<Entry>,
    order: Seq<nat>,
    n: nat,
)
    requires
        complete(x, entries),
        wf_entries(entries),
        n <= order.len(),
        forall|i: int| 0 <= i < order.len() ==> #[trigger] order[i] < entries.len(),
    ensures
        complete(x.refreshed_along(entries, order, n), entries),
    decreases n,
{
    if n > 0 {
        refreshed_along_is_complete(x, entries, order, (n - 1) as nat);
        refreshed_is_complete(
            x.refreshed_along(entries, order, (n - 1) as nat),
            entries,
            order[n - 1],
        );
    }
}

/// What the index visits are entries.
pub proof fn order_is_known(x: Indexed, entries: Seq<Entry>)
    requires
        complete(x, entries),
    ensures
        forall|i: int| 0 <= i < x.root.order().len() ==> #[trigger] x.root.order()[i]
            < entries.len(),
{
    let order = x.root.order();
    assert forall|i: int| 0 <= i < order.len() implies #[trigger] order[i] < entries.len() by {
        order_keeps_items(x.root, order[i]);
        vstd::seq_lib::to_multiset_contains(order, order[i]);
        assert(tally(x.root, order[i]) > 0);
    }
}

pub proof fn lemma_refreshed_times(x: Indexed, entries: Seq<Entry>, passes: nat)
    requires
        complete(x, entries),
        wf_entries(entries),
    ensures
        complete(x.refreshed_times(entries, passes), entries),
    decreases passes,
{
    if passes > 0 {
        lemma_refreshed_times(x, entries, (passes - 1) as nat);
        let before = x.refreshed_times(entries, (passes - 1) as nat);
        order_is_known(before, entries);
        refreshed_along_is_complete(before, entries, before.root.order(), before.root.order().len());
    }
}

/// However often the symbols are refreshed, the index holds every entry once.
pub proof fn built_is_complete(entries: Seq<Entry>, passes: nat)
    requires
        wf_entries(entries),
    ensures
        complete(built(entries, passes), entries),
{
    let current = entries.map_values(|e: Entry| e.initial);
    lemma_index_of(entries, entries.len(), current);
    lemma_refreshed_times(
        Indexed { root: index_of(entries, entries.len()), current },
        entries,
        passes,
    );
}

/// The items are visited without loss: each exactly once.
pub proof fn visiting_order_is_a_permutation(entries: Seq<Entry>, passes: nat)
    requires
        wf_entries(entries),
    ensures
        visiting_order(entries, passes).to_multiset() == Seq::new(
            entries.len(),
            |i: int| i as nat,
        ).to_multiset(),
{
    let order = visiting_order(entries, passes);
    let all = Seq::new(entries.len(), |i: int| i as nat);
    built_is_complete(entries, passes);
    assert forall|item: nat|
        #[trigger] order.to_multiset().count(item) == all.to_multiset().count(item) by {
        order_keeps_items(built(entries, passes).root, item);
        lemma_numbers(entries.len(), item);
        assert(tally(built(entries, passes).root, item) == (if item < entries.len() {
            1nat
        } else {
            0nat
        }));
    }
    assert(order.to_multiset() =~= all.to_multiset());
}

proof fn lemma_numbers(n: nat, item: nat)
    ensures
        Seq::new(n, |i: int| i as nat).to_multiset().count(item) == (if item < n {
            1nat
        } else {
            0nat
        }),
    decreases n,
{
    let all = Seq::new(n, |i: int| i as nat);
    if n == 0 {
        vstd::seq_lib::to_multiset_contains(all, item);
    } else {
        let rest = Seq::new((n - 1) as nat, |i: int| i as nat);
        lemma_numbers((n - 1) as nat, item);
        assert(all =~= rest.push((n - 1) as nat));
        vstd::seq_lib::to_multiset_build(rest, (n - 1) as nat);
    }
}

} // verus!
