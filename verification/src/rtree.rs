//! The spatial index of schematic items.
//!
//! Items of equal type and layer are drawn in the depth-first order of an eight-branch
//! R-tree over item type and integer coordinates. [`traversal_order_with_refresh`] gives
//! that order; `rtree_model` says what it is.

use crate::double::Double;
use crate::rtree_model::Rect;
use crate::rtree_model::MAX_BRANCHES;
use crate::rtree_model::MIN_BRANCHES;
use crate::rtree_model::SYMBOL_TYPE;
use vstd::prelude::*;

verus! {

pub enum Payload {
    Item(usize),
    Child(Box<Node>),
}

/// A branch of a node: what lies there, and the box round it.
pub struct Branch {
    pub rect: Rect,
    pub payload: Payload,
}

/// A node of the index. Leaves have level zero.
pub struct Node {
    pub level: usize,
    pub branches: Vec<Branch>,
}

impl Branch {
    /// The branch as a value.
    pub open spec fn entry(self) -> (Rect, crate::rtree_model::Tree)
        decreases self,
    {
        (
            self.rect,
            match self.payload {
                Payload::Item(item) => crate::rtree_model::Tree::Item(item as nat),
                Payload::Child(node) => node.tree(),
            },
        )
    }
}

impl Node {
    /// The node as a value.
    pub open spec fn tree(self) -> crate::rtree_model::Tree
        decreases self,
    {
        crate::rtree_model::Tree::Inner(
            self.level as nat,
            Seq::new(
                self.branches@.len(),
                |i: int|
                    if 0 <= i < self.branches@.len() {
                        self.branches@[i].entry()
                    } else {
                        arbitrary()
                    },
            ),
        )
    }
}

/// The branches as values.
pub open spec fn entries_of(branches: Seq<Branch>) -> Seq<(Rect, crate::rtree_model::Tree)> {
    branches.map_values(|b: Branch| b.entry())
}

proof fn lemma_tree(node: Node)
    ensures
        node.tree() == crate::rtree_model::Tree::Inner(
            node.level as nat,
            entries_of(node.branches@),
        ),
{
    assert(node.tree().branches() =~= entries_of(node.branches@));
}

/// The boxes of the branches.
pub open spec fn boxes(branches: Seq<Branch>) -> Seq<Rect> {
    branches.map_values(|b: Branch| b.rect)
}

proof fn lemma_boxes(branches: Seq<Branch>)
    ensures
        crate::rtree_model::rects_of(entries_of(branches)) == boxes(branches),
{
    assert(crate::rtree_model::rects_of(entries_of(branches)) =~= boxes(branches));
}

/// Half a distance, squared.
fn half_squared(distance: u64) -> (r: Double)
    ensures
        r == crate::rtree_model::half_squared(distance as int),
        r.wf(),
        r.within(300),
        !r.negative,
{
    let half = Double::half_of(distance);
    half.times(half)
}

impl Rect {
    /// The smallest box round both.
    pub fn combine(self, other: Rect) -> (r: Rect)
        ensures
            r == self.spec_combine(other),
            self.wf() && other.wf() ==> r.wf(),
    {
        Rect {
            min_type: if self.min_type <= other.min_type {
                self.min_type
            } else {
                other.min_type
            },
            min_x: if self.min_x <= other.min_x {
                self.min_x
            } else {
                other.min_x
            },
            min_y: if self.min_y <= other.min_y {
                self.min_y
            } else {
                other.min_y
            },
            max_type: if self.max_type >= other.max_type {
                self.max_type
            } else {
                other.max_type
            },
            max_x: if self.max_x >= other.max_x {
                self.max_x
            } else {
                other.max_x
            },
            max_y: if self.max_y >= other.max_y {
                self.max_y
            } else {
                other.max_y
            },
        }
    }

    /// The volume of the sphere round the box.
    pub fn spherical_volume(self) -> (r: Double)
        requires
            self.wf(),
        ensures
            r == self.volume(),
            r.wf(),
            r.within(4000),
    {
        proof {
            reveal(Rect::volume);
        }
        let over_types = half_squared((self.max_type as i64 - self.min_type as i64) as u64);
        let over_x = half_squared((self.max_x as i128 - self.min_x as i128) as u64);
        let over_y = half_squared((self.max_y as i128 - self.min_y as i128) as u64);
        let flat = over_types.plus(over_x);
        proof {
            lemma_sum_sign(over_types, over_x);
        }
        let squared = flat.plus(over_y);
        proof {
            lemma_sum_sign(flat, over_y);
        }
        let radius = squared.root();
        let sphere = Double { negative: false, mantissa: 0x10_c152_2000_0000, exponent: -50 };
        radius.times(radius).times(radius).times(sphere)
    }

    pub fn overlaps(self, other: Rect) -> (r: bool)
        ensures
            r == self.spec_overlaps(other),
    {
        self.min_type <= other.max_type && self.max_type >= other.min_type && self.min_x
            <= other.max_x && self.max_x >= other.min_x && self.min_y <= other.max_y && self.max_y
            >= other.min_y
    }
}

proof fn lemma_sum_sign(a: Double, b: Double)
    requires
        !a.negative,
        !b.negative,
    ensures
        !a.spec_sum(b).negative,
{
    reveal(Double::spec_sum);
    let e = a.common(b);
    assert(a.scaled(e) >= 0) by (nonlinear_arith)
        requires
            !a.negative,
            a.scaled(e) == a.mantissa * crate::double::two((a.exponent - e) as nat),
    ;
    assert(b.scaled(e) >= 0) by (nonlinear_arith)
        requires
            !b.negative,
            b.scaled(e) == b.mantissa * crate::double::two((b.exponent - e) as nat),
    ;
}

/// By how much the volume of `held` grows when `added` joins it.
fn growth(held: Rect, added: Rect) -> (r: Double)
    requires
        held.wf(),
        added.wf(),
    ensures
        r == crate::rtree_model::increase(held, added),
        r.wf(),
        r.within(5000),
{
    held.combine(added).spherical_volume().minus(held.spherical_volume())
}

/// The smallest box round all of `rects`.
fn cover_of(rects: &Vec<Rect>) -> (r: Rect)
    requires
        rects@.len() > 0,
    ensures
        r == crate::rtree_model::cover_of(rects@),
{
    let mut cover: Rect = rects[0];
    let mut i: usize = 1;
    assert(rects@.take(1).len() == 1);
    while i < rects.len()
        invariant
            1 <= i <= rects@.len(),
            cover == crate::rtree_model::cover_of(rects@.take(i as int)),
        decreases rects@.len() - i,
    {
        assert(rects@.take(i + 1).drop_last() =~= rects@.take(i as int));
        cover = cover.combine(rects[i]);
        i = i + 1;
    }
    assert(rects@.take(i as int) =~= rects@);
    cover
}

/// Of the boxes, the first one that grows least, and among those that grow equally the
/// first of the smallest.
fn pick(rects: &Vec<Rect>, rect: Rect) -> (best: usize)
    requires
        rects@.len() > 0,
        forall|i: int| 0 <= i < rects@.len() ==> (#[trigger] rects@[i]).wf(),
        rect.wf(),
    ensures
        best == crate::rtree_model::picked(rects@, rect, rects@.len()),
        best < rects@.len(),
{
    let mut best: usize = 0;
    let mut best_area: Double = rects[0].spherical_volume();
    let mut best_increase: Double = growth(rects[0], rect);
    let mut i: usize = 1;
    while i < rects.len()
        invariant
            1 <= i <= rects@.len(),
            best < i,
            forall|i: int| 0 <= i < rects@.len() ==> (#[trigger] rects@[i]).wf(),
            rect.wf(),
            best == crate::rtree_model::picked(rects@, rect, i as nat),
            best_area == rects@[best as int].volume(),
            best_area.wf(),
            best_increase == crate::rtree_model::increase(rects@[best as int], rect),
            best_increase.wf(),
        decreases rects@.len() - i,
    {
        let area = rects[i].spherical_volume();
        let increase = growth(rects[i], rect);
        if increase.less(best_increase) || (increase == best_increase && area.less(best_area)) {
            best = i;
            best_area = area;
            best_increase = increase;
        }
        i = i + 1;
    }
    best
}

/// The volume that a group of the two boxes would waste.
fn waste(rects: &Vec<Rect>, areas: &Vec<Double>, left: usize, right: usize) -> (r: Double)
    requires
        left < rects@.len(),
        right < rects@.len(),
        areas@.len() == rects@.len(),
        forall|i: int| 0 <= i < rects@.len() ==> (#[trigger] rects@[i]).wf(),
        forall|i: int|
            0 <= i < rects@.len() ==> #[trigger] areas@[i] == rects@[i].volume() && areas@[i].wf()
                && areas@[i].within(4000),
    ensures
        r == crate::rtree_model::waste(rects@, left as int, right as int),
        r.wf(),
{
    rects[left].combine(rects[right]).spherical_volume().minus(areas[left]).minus(areas[right])
}

/// The last of the pairs of boxes that waste most.
fn seeds(rects: &Vec<Rect>) -> (r: (usize, usize))
    requires
        2 <= rects@.len(),
        forall|i: int| 0 <= i < rects@.len() ==> (#[trigger] rects@[i]).wf(),
    ensures
        (r.0 as int, r.1 as int) == crate::rtree_model::seeds(rects@),
        r.0 < r.1 < rects@.len(),
{
    let total: usize = rects.len();
    let mut areas: Vec<Double> = Vec::new();
    let mut i: usize = 0;
    while i < total
        invariant
            i <= total == rects@.len(),
            areas@.len() == i,
            forall|i: int| 0 <= i < rects@.len() ==> (#[trigger] rects@[i]).wf(),
            forall|j: int|
                0 <= j < i ==> #[trigger] areas@[j] == rects@[j].volume() && areas@[j].wf()
                    && areas@[j].within(4000),
        decreases total - i,
    {
        areas.push(rects[i].spherical_volume());
        i = i + 1;
    }
    let mut first: usize = 0;
    let mut second: usize = 1;
    let mut worst: Double = waste(rects, &areas, 0, 1);
    let mut left: usize = 0;
    while left < total - 1
        invariant
            2 <= total == rects@.len() == areas@.len(),
            left <= total - 1,
            forall|i: int| 0 <= i < rects@.len() ==> (#[trigger] rects@[i]).wf(),
            forall|i: int|
                0 <= i < rects@.len() ==> #[trigger] areas@[i] == rects@[i].volume()
                    && areas@[i].wf() && areas@[i].within(4000),
            first < second < total,
            (first as int, second as int) == crate::rtree_model::worst_before(rects@, left as int),
            worst == crate::rtree_model::waste(rects@, first as int, second as int),
            worst.wf(),
        decreases total - left,
    {
        let ghost before = (first as int, second as int);
        let mut right: usize = left + 1;
        while right < total
            invariant
                2 <= total == rects@.len() == areas@.len(),
                left < right <= total,
                forall|i: int| 0 <= i < rects@.len() ==> (#[trigger] rects@[i]).wf(),
                forall|i: int|
                    0 <= i < rects@.len() ==> #[trigger] areas@[i] == rects@[i].volume()
                        && areas@[i].wf() && areas@[i].within(4000),
                first < second < total,
                (first as int, second as int) == crate::rtree_model::worst_with(
                    rects@,
                    before,
                    left as int,
                    right as int,
                ),
                worst == crate::rtree_model::waste(rects@, first as int, second as int),
                worst.wf(),
            decreases total - right,
        {
            let wasted = waste(rects, &areas, left, right);
            if !wasted.less(worst) {
                worst = wasted;
                first = left;
                second = right;
            }
            right = right + 1;
        }
        left = left + 1;
    }
    (first, second)
}

/// Two groups of boxes in the making.
struct Groups {
    part: Vec<Option<bool>>,
    first: usize,
    second: usize,
    first_cover: Rect,
    second_cover: Rect,
}

impl Groups {
    spec fn model(self) -> crate::rtree_model::Groups {
        crate::rtree_model::Groups {
            part: self.part@,
            first: self.first as nat,
            second: self.second as nat,
            first_cover: self.first_cover,
            second_cover: self.second_cover,
        }
    }

    spec fn wf(self, rects: Seq<Rect>) -> bool {
        &&& self.model().counted(rects.len())
        &&& self.first_cover.wf()
        &&& self.second_cover.wf()
        &&& self.first <= rects.len()
        &&& self.second <= rects.len()
        &&& rects.len() == MAX_BRANCHES + 1
        &&& forall|i: int| 0 <= i < rects.len() ==> (#[trigger] rects[i]).wf()
    }

    fn seeded(rects: &Vec<Rect>, first: usize, second: usize) -> (r: Groups)
        requires
            first < second < rects@.len() == MAX_BRANCHES + 1,
            forall|i: int| 0 <= i < rects@.len() ==> (#[trigger] rects@[i]).wf(),
        ensures
            r.model() == crate::rtree_model::Groups::seeded(rects@, first as int, second as int),
            r.wf(rects@),
    {
        let mut part: Vec<Option<bool>> = Vec::new();
        let mut i: usize = 0;
        while i < rects.len()
            invariant
                i <= rects@.len(),
                part@ =~= Seq::new(i as nat, |k: int| None::<bool>),
            decreases rects@.len() - i,
        {
            part.push(None);
            i = i + 1;
        }
        part[first] = Some(false);
        part[second] = Some(true);
        proof {
            crate::rtree_model::lemma_seeded(rects@, first as int, second as int);
        }
        Groups {
            part,
            first: 1,
            second: 1,
            first_cover: rects[first],
            second_cover: rects[second],
        }
    }

    /// Puts the box at `index` in the given group.
    fn classify(&mut self, rects: &Vec<Rect>, index: usize, group: bool)
        requires
            old(self).wf(rects@),
            index < rects@.len(),
            old(self).part@[index as int] is None,
        ensures
            final(self).model() == old(self).model().with(rects@, index as int, group),
            final(self).wf(rects@),
    {
        proof {
            crate::rtree_model::lemma_with(self.model(), rects@, index as int, group);
            crate::rtree_model::lemma_members_total(
                self.model().with(rects@, index as int, group).part,
                rects@.len(),
            );
        }
        self.part[index] = Some(group);
        if group {
            self.second = self.second + 1;
            self.second_cover = self.second_cover.combine(rects[index]);
        } else {
            self.first = self.first + 1;
            self.first_cover = self.first_cover.combine(rects[index]);
        }
    }

    /// Which group a box prefers, and how much better it does there.
    fn preference(&self, rects: &Vec<Rect>, index: usize) -> (r: (Double, bool))
        requires
            self.wf(rects@),
            index < rects@.len(),
        ensures
            r.0 == self.model().preference(rects@[index as int]),
            r.1 == self.model().preferred(rects@[index as int]),
            r.0.wf(),
    {
        let growth0 = growth(self.first_cover, rects[index]);
        let growth1 = growth(self.second_cover, rects[index]);
        if growth1.less(growth0) {
            (growth0.minus(growth1), true)
        } else {
            (growth1.minus(growth0), false)
        }
    }

    fn size(&self, group: bool) -> (r: usize)
        ensures
            r == self.model().size(group),
    {
        if group {
            self.second
        } else {
            self.first
        }
    }

    /// The box without a group that should get one next, and the group that it prefers.
    fn next(&self, rects: &Vec<Rect>) -> (r: Option<(usize, bool)>)
        requires
            self.wf(rects@),
        ensures
            match r {
                Some((index, group)) => self.model().next(rects@, rects@.len()) == Some(
                    index as int,
                ) && index < rects@.len() && self.part@[index as int] is None && group
                    == self.model().preferred(rects@[index as int]),
                None => self.model().next(rects@, rects@.len()) is None,
            },
    {
        let mut best: Option<(usize, bool)> = None;
        let mut strongest: Double = Double { negative: false, mantissa: 0, exponent: 0 };
        let mut i: usize = 0;
        while i < rects.len()
            invariant
                self.wf(rects@),
                i <= rects@.len(),
                strongest.wf(),
                match best {
                    Some((index, group)) => self.model().next(rects@, i as nat) == Some(
                        index as int,
                    ) && index < i && self.part@[index as int] is None && group
                        == self.model().preferred(rects@[index as int]) && strongest
                        == self.model().preference(rects@[index as int]),
                    None => self.model().next(rects@, i as nat) is None,
                },
            decreases rects@.len() - i,
        {
            if self.part[i].is_none() {
                let (difference, group) = self.preference(rects, i);
                let better: bool = match best {
                    None => true,
                    Some((_, held)) => strongest.less(difference) || (difference == strongest
                        && self.size(group) < self.size(held)),
                };
                if better {
                    best = Some((i, group));
                    strongest = difference;
                }
            }
            i = i + 1;
        }
        best
    }
}

/// In which of two nodes each branch of an overfull node goes, `false` for the node itself.
fn split_parts(rects: &Vec<Rect>) -> (r: Vec<Option<bool>>)
    requires
        rects@.len() == MAX_BRANCHES + 1,
        forall|i: int| 0 <= i < rects@.len() ==> (#[trigger] rects@[i]).wf(),
    ensures
        r@ == crate::rtree_model::split_parts(rects@),
        r@.len() == rects@.len(),
{
    proof {
        reveal(crate::rtree_model::split_parts);
        crate::rtree_model::lemma_split_parts(rects@);
    }
    let total: usize = rects.len();
    let (first, second) = seeds(rects);
    let mut groups = Groups::seeded(rects, first, second);
    let ghost start = groups.model();
    while groups.first + groups.second < total && groups.first < total - MIN_BRANCHES
        && groups.second < total - MIN_BRANCHES
        invariant
            total == rects@.len() == MAX_BRANCHES + 1,
            groups.wf(rects@),
            groups.model().grown(rects@) == start.grown(rects@),
        decreases total - groups.first - groups.second,
    {
        match groups.next(rects) {
            Some((index, group)) => {
                groups.classify(rects, index, group);
            },
            None => {
                proof {
                    crate::rtree_model::lemma_next(groups.model(), rects@, rects@.len());
                    crate::rtree_model::lemma_members_total(groups.part@, rects@.len());
                    assert(false);
                }
            },
        }
    }
    if groups.first + groups.second < total {
        let group: bool = groups.first >= total - MIN_BRANCHES;
        let ghost held = groups.model();
        let mut i: usize = 0;
        while i < total
            invariant
                i <= total == rects@.len(),
                groups.wf(rects@),
                groups.model() == held.filled(rects@, group, i as nat),
            decreases total - i,
        {
            if groups.part[i].is_none() {
                groups.classify(rects, i, group);
            }
            i = i + 1;
        }
    }
    groups.part
}

/// The boxes of a node's branches.
fn boxes_of(branches: &Vec<Branch>) -> (r: Vec<Rect>)
    ensures
        r@ == boxes(branches@),
{
    let mut r: Vec<Rect> = Vec::new();
    let mut i: usize = 0;
    while i < branches.len()
        invariant
            i <= branches@.len(),
            r@ =~= boxes(branches@.take(i as int)),
        decreases branches@.len() - i,
    {
        r.push(branches[i].rect);
        i = i + 1;
    }
    assert(branches@.take(i as int) =~= branches@);
    r
}

proof fn lemma_sound_boxes(branches: Seq<Branch>, level: nat)
    requires
        forall|i: int|
            0 <= i < branches.len() ==> crate::rtree_model::sound_branch(
                (#[trigger] branches[i]).entry(),
                level,
            ),
    ensures
        forall|i: int| 0 <= i < branches.len() ==> (#[trigger] boxes(branches)[i]).wf(),
{
    assert forall|i: int| 0 <= i < branches.len() implies (#[trigger] boxes(branches)[i]).wf() by {
        assert(crate::rtree_model::sound_branch(branches[i].entry(), level));
    }
}

/// What a sound node says of its branches.
proof fn lemma_sound_node(node: Node, level: nat, low: nat)
    requires
        crate::rtree_model::sound(node.tree(), level, low),
    ensures
        node.level == level,
        low <= node.branches@.len() <= MAX_BRANCHES,
        forall|i: int|
            0 <= i < node.branches@.len() ==> crate::rtree_model::sound_branch(
                (#[trigger] node.branches@[i]).entry(),
                level,
            ),
        forall|i: int|
            0 <= i < node.branches@.len() ==> (#[trigger] boxes(node.branches@)[i]).wf(),
{
    lemma_tree(node);
    assert forall|i: int| 0 <= i < node.branches@.len() implies crate::rtree_model::sound_branch(
        (#[trigger] node.branches@[i]).entry(),
        level,
    ) by {
        assert(node.tree().branches()[i] == node.branches@[i].entry());
    }
    lemma_sound_boxes(node.branches@, level);
}

impl Node {
    /// A node without branches.
    pub fn leaf() -> (r: Node)
        ensures
            r.tree() == crate::rtree_model::Tree::Inner(0, Seq::empty()),
    {
        let r = Node { level: 0, branches: Vec::new() };
        proof {
            lemma_tree(r);
            assert(entries_of(r.branches@) =~= Seq::empty());
        }
        r
    }

    /// The smallest box round all branches.
    pub fn cover(&self) -> (r: Rect)
        requires
            self.branches@.len() > 0,
        ensures
            r == self.tree().own_cover(),
    {
        proof {
            lemma_tree(*self);
            lemma_boxes(self.branches@);
        }
        cover_of(&boxes_of(&self.branches))
    }

    /// The branch that `rect` should go under.
    pub fn pick_branch(&self, rect: Rect) -> (r: usize)
        requires
            self.branches@.len() > 0,
            forall|i: int|
                0 <= i < self.branches@.len() ==> (#[trigger] boxes(self.branches@)[i]).wf(),
            rect.wf(),
        ensures
            r == crate::rtree_model::picked(
                crate::rtree_model::rects_of(self.tree().branches()),
                rect,
                self.branches@.len(),
            ),
            r < self.branches@.len(),
    {
        proof {
            lemma_tree(*self);
            lemma_boxes(self.branches@);
        }
        pick(&boxes_of(&self.branches), rect)
    }

    /// Splits the branches of a full node and one more between it and a new node.
    pub fn split(&mut self, extra: Branch) -> (other: Node)
        requires
            old(self).branches@.len() == MAX_BRANCHES,
            extra.rect.wf(),
            forall|i: int|
                0 <= i < old(self).branches@.len() ==> (#[trigger] boxes(
                    old(self).branches@,
                )[i]).wf(),
        ensures
            ({
                let all = old(self).tree().branches().push(extra.entry());
                let parts = crate::rtree_model::split_parts(crate::rtree_model::rects_of(all));
                let level = old(self).level as nat;
                &&& final(self).tree() == crate::rtree_model::Tree::Inner(
                    level,
                    crate::rtree_model::chosen(all, parts, false, all.len()),
                )
                &&& other.tree() == crate::rtree_model::Tree::Inner(
                    level,
                    crate::rtree_model::chosen(all, parts, true, all.len()),
                )
            }),
    {
        let ghost before = *self;
        let ghost all = self.tree().branches().push(extra.entry());
        proof {
            lemma_tree(*self);
        }
        let mut branches: Vec<Branch> = Vec::new();
        std::mem::swap(&mut branches, &mut self.branches);
        branches.push(extra);
        let ghost held = branches@;
        proof {
            assert(entries_of(held) =~= all);
            lemma_boxes(held);
            assert forall|i: int| 0 <= i < held.len() implies (#[trigger] boxes(held)[i]).wf() by {
                if i < before.branches@.len() {
                    assert(boxes(before.branches@)[i].wf());
                }
            }
        }
        let parts = split_parts(&boxes_of(&branches));
        let total: usize = branches.len();
        let mut other = Node { level: self.level, branches: Vec::new() };
        let mut i: usize = 0;
        while i < total
            invariant
                i <= total == held.len() == parts@.len(),
                branches@ =~= held.skip(i as int),
                entries_of(held) == all,
                self.level == before.level,
                other.level == before.level,
                entries_of(self.branches@) =~= crate::rtree_model::chosen(
                    all,
                    parts@,
                    false,
                    i as nat,
                ),
                entries_of(other.branches@) =~= crate::rtree_model::chosen(
                    all,
                    parts@,
                    true,
                    i as nat,
                ),
            decreases total - i,
        {
            let branch = branches.remove(0);
            assert(branch.entry() == all[i as int]);
            let own: bool = match parts[i] {
                Some(group) => !group,
                None => false,
            };
            if own {
                self.branches.push(branch);
            } else {
                other.branches.push(branch);
            }
            i = i + 1;
        }
        proof {
            lemma_tree(*self);
            lemma_tree(other);
        }
        other
    }

    /// Adds a branch, and answers the new node where this one was full and had to be split.
    pub fn add(&mut self, branch: Branch) -> (beside: Option<Node>)
        requires
            old(self).branches@.len() <= MAX_BRANCHES,
            branch.rect.wf(),
            forall|i: int|
                0 <= i < old(self).branches@.len() ==> (#[trigger] boxes(
                    old(self).branches@,
                )[i]).wf(),
        ensures
            (final(self).tree(), opt_tree(beside)) == crate::rtree_model::added(
                old(self).level as nat,
                old(self).tree().branches(),
                branch.entry(),
            ),
    {
        proof {
            lemma_tree(*self);
        }
        if self.branches.len() < MAX_BRANCHES {
            let ghost before = self.branches@;
            self.branches.push(branch);
            proof {
                lemma_tree(*self);
                assert(entries_of(self.branches@) =~= entries_of(before).push(branch.entry()));
            }
            None
        } else {
            Some(self.split(branch))
        }
    }

    /// Puts a branch into a node of the given level, and answers the new node beside this one
    /// where this one was split.
    pub fn insert_branch(&mut self, branch: Branch, target_level: usize) -> (beside: Option<Node>)
        requires
            crate::rtree_model::sound(old(self).tree(), old(self).level as nat, 0),
            target_level <= old(self).level,
            target_level < old(self).level ==> old(self).branches@.len() > 0,
            crate::rtree_model::sound_branch(branch.entry(), target_level as nat),
        ensures
            (final(self).tree(), opt_tree(beside)) == old(self).tree().inserted(
                branch.entry(),
                target_level as nat,
            ),
        decreases *old(self),
    {
        let ghost before = *self;
        proof {
            lemma_tree(*self);
            lemma_sound_node(*self, self.level as nat, 0);
            crate::rtree_model::lemma_picked(
                crate::rtree_model::rects_of(self.tree().branches()),
                branch.rect,
                self.branches@.len(),
            );
        }
        if self.level == target_level {
            return self.add(branch);
        }
        let ghost entry = branch.entry();
        let ghost below = (self.level - 1) as nat;
        let at: usize = self.pick_branch(branch.rect);
        let ghost under = self.branches@[at as int].entry().1;
        proof {
            assert(crate::rtree_model::sound_branch(
                self.branches@[at as int].entry(),
                self.level as nat,
            ));
            crate::rtree_model::inserted_is_sound(
                under,
                below,
                MIN_BRANCHES as nat,
                entry,
                target_level as nat,
                Seq::empty(),
            );
        }
        let ghost (grown, aside) = under.inserted(entry, target_level as nat);
        let beside: Option<Node> = match &mut self.branches[at].payload {
            Payload::Item(_) => None,
            Payload::Child(child) => {
                proof {
                    lemma_tree(**child);
                }
                child.insert_branch(branch, target_level)
            },
        };
        proof {
            crate::rtree_model::lemma_own_cover(grown, below, MIN_BRANCHES as nat);
        }
        let rect: Rect = match &self.branches[at].payload {
            Payload::Item(_) => self.branches[at].rect,
            Payload::Child(child) => {
                proof {
                    lemma_tree(**child);
                }
                child.cover()
            },
        };
        self.branches[at].rect = rect;
        proof {
            let updated = before.tree().branches().update(at as int, (grown.own_cover(), grown));
            lemma_tree(*self);
            assert(entries_of(self.branches@) =~= updated);
            assert forall|i: int| 0 <= i < self.branches@.len() implies (#[trigger] boxes(
                self.branches@,
            )[i]).wf() by {
                if i != at {
                    assert(boxes(before.branches@)[i].wf());
                }
            }
        }
        match beside {
            None => None,
            Some(node) => {
                proof {
                    lemma_tree(node);
                    crate::rtree_model::lemma_own_cover(aside->0, below, MIN_BRANCHES as nat);
                }
                let rect = node.cover();
                self.add(Branch { rect, payload: Payload::Child(Box::new(node)) })
            },
        }
    }

    /// Takes `item` out, which is looked for under the boxes that `rect` overlaps, and puts the
    /// nodes that became too small at the end of `reinserts`. Answers whether it was found.
    pub fn remove(&mut self, rect: Rect, item: usize, reinserts: &mut Vec<Node>) -> (found: bool)
        requires
            crate::rtree_model::sound(old(self).tree(), old(self).level as nat, 0),
        ensures
            match old(self).tree().removed(rect, item as nat) {
                Some((rest, gone)) => found && final(self).tree() == rest && trees(
                    final(reinserts)@,
                ) == trees(old(reinserts)@) + gone,
                None => !found && final(self).tree() == old(self).tree() && trees(
                    final(reinserts)@,
                ) == trees(old(reinserts)@),
            },
        decreases old(self).level,
    {
        let ghost before = *self;
        let ghost t = self.tree();
        proof {
            lemma_tree(*self);
            lemma_sound_node(*self, self.level as nat, 0);
        }
        if self.level == 0 {
            let mut index: usize = 0;
            while index < self.branches.len()
                invariant
                    index <= self.branches@.len(),
                    *self == before,
                    before.level == 0,
                    t == before.tree(),
                    t.branches() == entries_of(before.branches@),
                    crate::rtree_model::item_at(t.branches(), item as nat, 0)
                        == crate::rtree_model::item_at(t.branches(), item as nat, index as nat),
                    forall|i: int|
                        0 <= i < before.branches@.len() ==> crate::rtree_model::sound_branch(
                            (#[trigger] before.branches@[i]).entry(),
                            0,
                        ),
                    t == old(self).tree(),
                    trees(reinserts@) == trees(old(reinserts)@),
                decreases self.branches@.len() - index,
            {
                let here: bool = match &self.branches[index].payload {
                    Payload::Item(candidate) => *candidate == item,
                    Payload::Child(_) => false,
                };
                assert(crate::rtree_model::sound_branch(
                    before.branches@[index as int].entry(),
                    0,
                ));
                if here {
                    let _ = self.branches.swap_remove(index);
                    proof {
                        lemma_tree(*self);
                        assert(entries_of(self.branches@) =~= crate::rtree_model::swap_removed(
                            t.branches(),
                            index as int,
                        ));
                        assert(trees(reinserts@) =~= trees(old(reinserts)@) + Seq::empty());
                    }
                    return true;
                }
                index = index + 1;
            }
            return false;
        }
        let mut index: usize = 0;
        while index < self.branches.len()
            invariant
                index <= self.branches@.len(),
                self.tree() == t,
                self.level == before.level,
                before.level > 0,
                t == old(self).tree(),
                t.branches() == entries_of(self.branches@),
                t.level() == self.level,
                crate::rtree_model::sound(t, self.level as nat, 0),
                t.removed(rect, item as nat) == t.removed_from(rect, item as nat, index as nat),
                trees(reinserts@) == trees(old(reinserts)@),
                old(self).level == before.level,
            decreases self.branches@.len() - index,
        {
            let ghost held = *self;
            proof {
                lemma_tree(*self);
                lemma_sound_node(*self, self.level as nat, 0);
                assert(crate::rtree_model::sound_branch(
                    self.branches@[index as int].entry(),
                    self.level as nat,
                ));
            }
            if !rect.overlaps(self.branches[index].rect) {
                index = index + 1;
                continue;
            }
            let ghost under = self.branches@[index as int].entry().1;
            let removed: bool = match &mut self.branches[index].payload {
                Payload::Item(_) => false,
                Payload::Child(child) => {
                    proof {
                        lemma_tree(**child);
                    }
                    child.remove(rect, item, reinserts)
                },
            };
            if !removed {
                proof {
                    lemma_tree(*self);
                    assert(entries_of(self.branches@) =~= entries_of(held.branches@));
                }
                index = index + 1;
                continue;
            }
            let ghost (child, gone) = under.removed(rect, item as nat)->0;
            proof {
                crate::rtree_model::removed_is_sound(
                    under,
                    (self.level - 1) as nat,
                    MIN_BRANCHES as nat,
                    rect,
                    item as nat,
                    Seq::empty(),
                );
            }
            let count: usize = match &self.branches[index].payload {
                Payload::Item(_) => 0,
                Payload::Child(child) => {
                    proof {
                        lemma_tree(**child);
                    }
                    child.branches.len()
                },
            };
            if count >= MIN_BRANCHES {
                let rect: Rect = match &self.branches[index].payload {
                    Payload::Item(_) => self.branches[index].rect,
                    Payload::Child(child) => child.cover(),
                };
                self.branches[index].rect = rect;
                proof {
                    lemma_tree(*self);
                    assert(entries_of(self.branches@) =~= t.branches().update(
                        index as int,
                        (child.own_cover(), child),
                    ));
                }
            } else {
                let branch = self.branches.swap_remove(index);
                proof {
                    lemma_tree(*self);
                    assert(entries_of(self.branches@) =~= crate::rtree_model::swap_removed(
                        t.branches(),
                        index as int,
                    ));
                }
                let ghost held_back = trees(reinserts@);
                match branch.payload {
                    Payload::Item(_) => {},
                    Payload::Child(node) => {
                        reinserts.push(*node);
                    },
                }
                proof {
                    assert(trees(reinserts@) =~= held_back.push(child));
                    assert(trees(reinserts@) =~= trees(old(reinserts)@) + gone.push(child));
                }
            }
            return true;
        }
        false
    }
}

/// Nodes as values.
pub open spec fn trees(nodes: Seq<Node>) -> Seq<crate::rtree_model::Tree> {
    nodes.map_values(|n: Node| n.tree())
}

impl Node {
    /// Appends the items, depth first.
    pub fn traverse(&self, output: &mut Vec<usize>)
        ensures
            numbers(final(output)@) == numbers(old(output)@) + self.tree().order(),
        decreases self,
    {
        let ghost before = numbers(output@);
        proof {
            lemma_tree(*self);
            assert(before + Seq::empty() =~= before);
        }
        let mut i: usize = 0;
        while i < self.branches.len()
            invariant
                i <= self.branches@.len(),
                self.tree() == crate::rtree_model::Tree::Inner(
                    self.level as nat,
                    entries_of(self.branches@),
                ),
                numbers(output@) == before + self.tree().order_upto(i as nat),
            decreases self.branches@.len() - i,
        {
            let ghost held = numbers(output@);
            let branch = &self.branches[i];
            let ghost t = branch.entry().1;
            match &branch.payload {
                Payload::Item(item) => {
                    output.push(*item);
                    assert(numbers(output@) =~= held + t.order());
                },
                Payload::Child(child) => {
                    child.traverse(output);
                },
            }
            i = i + 1;
            proof {
                assert(self.tree().branches()[i - 1].1 == t);
                assert(numbers(output@) =~= before + self.tree().order_upto(i as nat));
            }
        }
    }
}

/// Item numbers as values.
pub open spec fn numbers(items: Seq<usize>) -> Seq<nat> {
    items.map_values(|i: usize| i as nat)
}

/// Puts a branch in below `root`, which gets a parent where it was split.
fn insert_root(root: &mut Node, branch: Branch, target_level: usize, current: Ghost<Seq<Rect>>)
    requires
        crate::rtree_model::standing(old(root).tree()),
        target_level <= old(root).level,
        crate::rtree_model::sound_branch(branch.entry(), target_level as nat),
        crate::rtree_model::placed(old(root).tree(), current@),
        crate::rtree_model::placed_branch(branch.entry(), current@),
        current@.len() <= usize::MAX,
        forall|item: nat|
            item < current@.len() ==> #[trigger] crate::rtree_model::tally(old(root).tree(), item)
                + crate::rtree_model::tally(branch.entry().1, item) <= 1,
    ensures
        final(root).tree() == old(root).tree().rooted(branch.entry(), target_level as nat),
{
    let ghost t = root.tree();
    let ghost entry = branch.entry();
    let ghost level = root.level as nat;
    proof {
        lemma_tree(*root);
        crate::rtree_model::inserted_is_sound(t, level, 0, entry, target_level as nat, current@);
        if t.inserted(entry, target_level as nat).1 is Some {
            crate::rtree_model::split_root_is_low(t, entry, target_level as nat, current@);
        }
    }
    match root.insert_branch(branch, target_level) {
        None => {},
        Some(other) => {
            let mut under = Node::leaf();
            std::mem::swap(&mut under, root);
            proof {
                lemma_tree(under);
                lemma_tree(other);
            }
            let rect = under.cover();
            let beside = other.cover();
            root.level = under.level + 1;
            let ghost a = under.tree();
            let ghost b = other.tree();
            let mut branches: Vec<Branch> = Vec::new();
            branches.push(Branch { rect, payload: Payload::Child(Box::new(under)) });
            branches.push(Branch { rect: beside, payload: Payload::Child(Box::new(other)) });
            root.branches = branches;
            proof {
                lemma_tree(*root);
                assert(entries_of(root.branches@) =~= seq![
                    (a.own_cover(), a),
                    (b.own_cover(), b),
                ]);
            }
        },
    }
}

/// Puts the branches of `node` back at its level, one by one.
fn restore_node(root: &mut Node, node: Node, current: Ghost<Seq<Rect>>)
    requires
        crate::rtree_model::standing(old(root).tree()),
        crate::rtree_model::sound(node.tree(), node.level as nat, 1),
        node.level < old(root).level,
        crate::rtree_model::placed(old(root).tree(), current@),
        crate::rtree_model::placed(node.tree(), current@),
        current@.len() <= usize::MAX,
        forall|item: nat|
            item < current@.len() ==> #[trigger] crate::rtree_model::tally(old(root).tree(), item)
                + crate::rtree_model::tally(node.tree(), item) <= 1,
    ensures
        final(root).tree() == old(root).tree().rooted_all(
            node.tree().branches(),
            node.level as nat,
            node.tree().branches().len(),
        ),
{
    let ghost t = root.tree();
    let ghost held = node.branches@;
    let ghost entries = entries_of(held);
    proof {
        lemma_tree(node);
        lemma_tree(*root);
    }
    let level: usize = node.level;
    let total: usize = node.branches.len();
    let mut branches: Vec<Branch> = node.branches;
    let mut i: usize = 0;
    while i < total
        invariant
            i <= total == held.len(),
            branches@ =~= held.skip(i as int),
            entries == entries_of(held),
            root.tree() == t.rooted_all(entries, level as nat, i as nat),
            crate::rtree_model::standing(t),
            level <= t.level(),
            crate::rtree_model::placed(t, current@),
            crate::rtree_model::all_placed(entries, current@),
            forall|k: int|
                0 <= k < entries.len() ==> crate::rtree_model::sound_branch(
                    #[trigger] entries[k],
                    level as nat,
                ),
            current@.len() <= usize::MAX,
            forall|item: nat|
                item < current@.len() ==> #[trigger] crate::rtree_model::tally(t, item)
                    + crate::rtree_model::tally_of(entries, item) <= 1,
        decreases total - i,
    {
        let branch = branches.remove(0);
        proof {
            lemma_tree(*root);
            assert(branch.entry() == entries[i as int]);
            crate::rtree_model::lemma_rooted_all(t, entries, level as nat, i as nat, current@);
            assert forall|item: nat| item < current@.len() implies
                #[trigger] crate::rtree_model::tally(root.tree(), item)
                + crate::rtree_model::tally(branch.entry().1, item) <= 1 by {
                crate::rtree_model::lemma_rooted_all_tally(
                    t,
                    entries,
                    level as nat,
                    i as nat,
                    current@,
                    item,
                );
                crate::rtree_model::lemma_tally_take(entries, i as int, item);
                assert(crate::rtree_model::tally(t, item) + crate::rtree_model::tally_of(
                    entries,
                    item,
                ) <= 1);
            }
            assert(crate::rtree_model::placed_branch(entries[i as int], current@));
        }
        insert_root(root, branch, level, current);
        i = i + 1;
    }
}

/// Puts the branches of the nodes that left the tree back, the last node first.
fn restore(root: &mut Node, nodes: Vec<Node>, current: Ghost<Seq<Rect>>)
    requires
        crate::rtree_model::standing(old(root).tree()),
        crate::rtree_model::returnable(trees(nodes@), old(root).level as nat),
        crate::rtree_model::placed(old(root).tree(), current@),
        crate::rtree_model::nodes_placed(trees(nodes@), current@),
        current@.len() <= usize::MAX,
        forall|item: nat|
            item < current@.len() ==> #[trigger] crate::rtree_model::tally(old(root).tree(), item)
                + crate::rtree_model::tally_all(trees(nodes@), item) <= 1,
    ensures
        final(root).tree() == old(root).tree().restored(trees(nodes@)),
{
    let ghost t = root.tree();
    let ghost all = trees(nodes@);
    let mut nodes: Vec<Node> = nodes;
    while nodes.len() > 0
        invariant
            root.tree().restored(trees(nodes@)) == t.restored(all),
            crate::rtree_model::standing(root.tree()),
            crate::rtree_model::returnable(trees(nodes@), root.level as nat),
            crate::rtree_model::placed(root.tree(), current@),
            crate::rtree_model::nodes_placed(trees(nodes@), current@),
            current@.len() <= usize::MAX,
            forall|item: nat|
                item < current@.len() ==> #[trigger] crate::rtree_model::tally(root.tree(), item)
                    + crate::rtree_model::tally_all(trees(nodes@), item) <= 1,
        decreases nodes@.len(),
    {
        let ghost held = trees(nodes@);
        let ghost before = root.tree();
        let node = nodes.pop().unwrap();
        proof {
            lemma_tree(*root);
            lemma_tree(node);
            assert(trees(nodes@) =~= held.drop_last());
            assert(node.tree() == held.last());
            assert(crate::rtree_model::sound(held[held.len() - 1], node.level as nat, 1));
            assert(crate::rtree_model::placed(held[held.len() - 1], current@));
            assert forall|item: nat| item < current@.len() implies
                #[trigger] crate::rtree_model::tally(before, item) + crate::rtree_model::tally(
                node.tree(),
                item,
            ) <= 1 by {
                assert(crate::rtree_model::tally(before, item) + crate::rtree_model::tally_all(
                    held,
                    item,
                ) <= 1);
            }
        }
        let ghost entries = node.tree().branches();
        let ghost level = node.level as nat;
        restore_node(root, node, current);
        proof {
            crate::rtree_model::lemma_rooted_all(before, entries, level, entries.len(), current@);
            lemma_tree(*root);
            assert forall|k: int| 0 <= k < trees(nodes@).len() implies crate::rtree_model::sound(
                #[trigger] trees(nodes@)[k],
                trees(nodes@)[k].level(),
                1,
            ) && trees(nodes@)[k].level() < root.level && crate::rtree_model::placed(
                trees(nodes@)[k],
                current@,
            ) by {
                assert(trees(nodes@)[k] == held[k]);
            }
            assert forall|item: nat| item < current@.len() implies
                #[trigger] crate::rtree_model::tally(root.tree(), item)
                + crate::rtree_model::tally_all(trees(nodes@), item) <= 1 by {
                crate::rtree_model::lemma_rooted_all_tally(
                    before,
                    entries,
                    level,
                    entries.len(),
                    current@,
                    item,
                );
                assert(entries.take(entries.len() as int) =~= entries);
                assert(crate::rtree_model::tally(before, item) + crate::rtree_model::tally_all(
                    held,
                    item,
                ) <= 1);
            }
        }
    }
}

/// The rectangle of an item in internal units.
#[derive(Clone, Copy, PartialEq, Eq, Structural, Debug)]
pub struct IndexBounds {
    pub min_x: i64,
    pub min_y: i64,
    pub max_x: i64,
    pub max_y: i64,
}

impl IndexBounds {
    /// The corners are in order and within reach.
    pub open spec fn wf(self) -> bool {
        &&& -crate::rtree_model::REACH <= self.min_x <= self.max_x <= crate::rtree_model::REACH
        &&& -crate::rtree_model::REACH <= self.min_y <= self.max_y <= crate::rtree_model::REACH
    }

    /// The box of an item of the given type.
    pub open spec fn rect(self, item_type: i32) -> Rect {
        Rect {
            min_type: item_type,
            min_x: self.min_x,
            min_y: self.min_y,
            max_type: item_type,
            max_x: self.max_x,
            max_y: self.max_y,
        }
    }

    fn to_rect(self, item_type: i32) -> (r: Rect)
        ensures
            r == self.rect(item_type),
    {
        Rect {
            min_type: item_type,
            min_x: self.min_x,
            min_y: self.min_y,
            max_type: item_type,
            max_x: self.max_x,
            max_y: self.max_y,
        }
    }
}

/// An item to index: its type, the rectangle under which it enters the index, and the one
/// that it has once its symbol is refreshed.
#[derive(Clone, Copy, PartialEq, Eq, Structural, Debug)]
pub struct IndexEntry {
    pub item_type: i32,
    pub initial: IndexBounds,
    pub resolved: IndexBounds,
}

impl IndexEntry {
    pub open spec fn model(self) -> crate::rtree_model::Entry {
        crate::rtree_model::Entry {
            item_type: self.item_type,
            initial: self.initial.rect(self.item_type),
            resolved: self.resolved.rect(self.item_type),
        }
    }
}

/// The entries as values.
pub open spec fn models(entries: Seq<IndexEntry>) -> Seq<crate::rtree_model::Entry> {
    entries.map_values(|e: IndexEntry| e.model())
}

/// The rectangles of the entries are in order and within reach.
pub open spec fn wf_entries(entries: Seq<IndexEntry>) -> bool {
    forall|i: int|
        0 <= i < entries.len() ==> (#[trigger] entries[i]).initial.wf() && entries[i].resolved.wf()
}

proof fn lemma_models(entries: Seq<IndexEntry>)
    requires
        wf_entries(entries),
    ensures
        crate::rtree_model::wf_entries(models(entries)),
{
    assert forall|i: int| 0 <= i < models(entries).len() implies (#[trigger] models(
        entries,
    )[i]).initial.wf() && models(entries)[i].resolved.wf() by {
        assert(entries[i].initial.wf());
    }
}

/// Takes an item out and puts it back under its resolved box.
fn refresh(
    root: &mut Node,
    current: &mut Vec<Rect>,
    entries: &Vec<IndexEntry>,
    item: usize,
)
    requires
        wf_entries(entries@),
        item < entries@.len(),
        crate::rtree_model::complete(
            crate::rtree_model::Indexed { root: old(root).tree(), current: old(current)@ },
            models(entries@),
        ),
    ensures
        (crate::rtree_model::Indexed { root: final(root).tree(), current: final(current)@ })
            == (crate::rtree_model::Indexed {
            root: old(root).tree(),
            current: old(current)@,
        }).refreshed(models(entries@), item as nat),
{
    let ghost x = crate::rtree_model::Indexed { root: root.tree(), current: current@ };
    let ghost level = x.root.level();
    let ghost low = x.root.branches().len();
    proof {
        lemma_models(entries@);
        lemma_tree(*root);
        crate::rtree_model::refreshed_is_complete(x, models(entries@), item as nat);
        assert(x.current.len() == current.len());
    }
    let rect: Rect = current[item];
    let mut reinserts: Vec<Node> = Vec::new();
    assert(trees(reinserts@) =~= Seq::empty());
    let found = root.remove(rect, item, &mut reinserts);
    let ghost (rest, gone) = x.root.removed(rect, item as nat)->0;
    proof {
        lemma_tree(*root);
        assert(trees(reinserts@) =~= gone);
        crate::rtree_model::removed_is_sound(x.root, level, low, rect, item as nat, x.current);
        assert forall|other: nat| other < x.current.len() implies
            #[trigger] crate::rtree_model::tally(rest, other) + crate::rtree_model::tally_all(
            gone,
            other,
        ) <= 1 by {
            crate::rtree_model::removed_keeps_items(x.root, level, low, rect, item as nat, other);
            assert(crate::rtree_model::tally(x.root, other) == 1);
        }
    }
    restore(root, reinserts, Ghost(x.current));
    let ghost again = root.tree();
    proof {
        lemma_tree(*root);
        crate::rtree_model::restored_stands(rest, gone, x.current);
        crate::rtree_model::shortened_is_proper(again, x.current);
    }
    if root.level > 0 && root.branches.len() == 1 {
        proof {
            lemma_sound_node(*root, root.level as nat, 0);
            assert(crate::rtree_model::sound_branch(root.branches@[0].entry(), root.level as nat));
        }
        let branch = root.branches.pop().unwrap();
        match branch.payload {
            Payload::Item(_) => {},
            Payload::Child(child) => {
                *root = *child;
            },
        }
    }
    let ghost short = again.shortened();
    let resolved: Rect = entries[item].resolved.to_rect(entries[item].item_type);
    let ghost moved = x.current.update(item as int, resolved);
    proof {
        lemma_tree(*root);
        assert(root.tree() == short);
        assert forall|other: nat| #![trigger crate::rtree_model::tally(short, other)]
            crate::rtree_model::tally(short, other) + crate::rtree_model::tally(
            crate::rtree_model::Tree::Item(item as nat),
            other,
        ) <= 1 by {
            crate::rtree_model::removed_keeps_items(x.root, level, low, rect, item as nat, other);
            crate::rtree_model::restored_keeps_items(rest, gone, x.current, other);
            assert(crate::rtree_model::tally(x.root, other) <= 1);
            assert(crate::rtree_model::tally(short, other) == crate::rtree_model::tally(
                again,
                other,
            ));
        }
        assert(crate::rtree_model::tally(short, item as nat) == 0);
        crate::rtree_model::lemma_placed_elsewhere(short, x.current, item as nat, resolved);
    }
    insert_root(root, Branch { rect: resolved, payload: Payload::Item(item) }, 0, Ghost(moved));
    current[item] = resolved;
}

/// The order in which the items of the entries are visited, after their symbols were
/// refreshed so many times.
pub fn traversal_order_with_refresh(entries: &Vec<IndexEntry>, symbol_refresh_passes: usize) -> (r:
    Vec<usize>)
    requires
        wf_entries(entries@),
    ensures
        numbers(r@) == crate::rtree_model::visiting_order(
            models(entries@),
            symbol_refresh_passes as nat,
        ),
        numbers(r@).to_multiset() == Seq::new(entries@.len(), |i: int| i as nat).to_multiset(),
{
    let ghost all = models(entries@);
    let ghost initial = all.map_values(|e: crate::rtree_model::Entry| e.initial);
    proof {
        lemma_models(entries@);
        crate::rtree_model::visiting_order_is_a_permutation(all, symbol_refresh_passes as nat);
    }
    let mut root = Node::leaf();
    let mut current: Vec<Rect> = Vec::new();
    let mut i: usize = 0;
    while i < entries.len()
        invariant
            i <= entries@.len(),
            all == models(entries@),
            initial == all.map_values(|e: crate::rtree_model::Entry| e.initial),
            crate::rtree_model::wf_entries(all),
            current@ =~= initial.take(i as int),
            root.tree() == crate::rtree_model::index_of(all, i as nat),
        decreases entries@.len() - i,
    {
        let rect: Rect = entries[i].initial.to_rect(entries[i].item_type);
        proof {
            lemma_tree(root);
            crate::rtree_model::lemma_index_of(all, i as nat, initial);
            assert(all[i as int].initial == rect);
            assert(initial[i as int] == rect);
        }
        current.push(rect);
        insert_root(
            &mut root,
            Branch { rect, payload: Payload::Item(i) },
            0,
            Ghost(initial),
        );
        i = i + 1;
    }
    let ghost start = crate::rtree_model::Indexed { root: root.tree(), current: current@ };
    proof {
        assert(current@ =~= initial);
        crate::rtree_model::lemma_index_of(all, all.len(), initial);
        assert(crate::rtree_model::complete(start, all));
    }
    let mut pass: usize = 0;
    while pass < symbol_refresh_passes
        invariant
            pass <= symbol_refresh_passes,
            wf_entries(entries@),
            all == models(entries@),
            crate::rtree_model::wf_entries(all),
            crate::rtree_model::complete(start, all),
            (crate::rtree_model::Indexed { root: root.tree(), current: current@ })
                == start.refreshed_times(all, pass as nat),
        decreases symbol_refresh_passes - pass,
    {
        let ghost before = start.refreshed_times(all, pass as nat);
        proof {
            crate::rtree_model::lemma_refreshed_times(start, all, pass as nat);
            crate::rtree_model::order_is_known(before, all);
        }
        let mut order: Vec<usize> = Vec::new();
        root.traverse(&mut order);
        let ghost visited = before.root.order();
        assert(numbers(order@) =~= visited);
        let mut k: usize = 0;
        while k < order.len()
            invariant
                k <= order@.len(),
                wf_entries(entries@),
                all == models(entries@),
                crate::rtree_model::wf_entries(all),
                crate::rtree_model::complete(before, all),
                numbers(order@) == visited,
                forall|i: int| 0 <= i < visited.len() ==> #[trigger] visited[i] < all.len(),
                (crate::rtree_model::Indexed { root: root.tree(), current: current@ })
                    == before.refreshed_along(all, visited, k as nat),
            decreases order@.len() - k,
        {
            let item: usize = order[k];
            proof {
                assert(visited[k as int] == item as nat);
                crate::rtree_model::refreshed_along_is_complete(before, all, visited, k as nat);
            }
            if entries[item].item_type == SYMBOL_TYPE {
                refresh(&mut root, &mut current, entries, item);
            }
            k = k + 1;
        }
        pass = pass + 1;
    }
    let mut order: Vec<usize> = Vec::new();
    root.traverse(&mut order);
    assert(numbers(order@) =~= root.tree().order());
    order
}

/// The order in which the items of the entries are visited.
pub fn traversal_order(entries: &Vec<IndexEntry>) -> (r: Vec<usize>)
    requires
        wf_entries(entries@),
    ensures
        numbers(r@) == crate::rtree_model::visiting_order(models(entries@), 0),
        numbers(r@).to_multiset() == Seq::new(entries@.len(), |i: int| i as nat).to_multiset(),
{
    traversal_order_with_refresh(entries, 0)
}

/// The tree of a node that may be missing.
pub open spec fn opt_tree(node: Option<Node>) -> Option<crate::rtree_model::Tree> {
    match node {
        Some(node) => Some(node.tree()),
        None => None,
    }
}

} // verus!
