//! Sorting in the order that libstdc++'s `std::sort` leaves its elements.
//!
//! Two elements that the comparator does not tell apart may come out in either
//! order, and which one depends on every swap that the algorithm makes. Schematic
//! items are painted in that order, so the swaps themselves are the contract here:
//! [`glibcxx_sort_by`] leaves exactly [`sorted_model`], which is sorted.

use vstd::prelude::*;

verus! {

/// Ranges of at most this many elements are left to the final insertion pass.
pub const THRESHOLD: usize = 16;

/// `lt` is a strict weak order.
pub open spec fn strict_weak_order<T>(lt: spec_fn(T, T) -> bool) -> bool {
    &&& forall|a: T, b: T| #[trigger] lt(a, b) ==> !lt(b, a)
    &&& forall|a: T, b: T, c: T|
        !(#[trigger] lt(a, b)) && !(#[trigger] lt(b, c)) ==> !lt(a, c)
}

/// `lt` is a strict weak order, and `less` answers by it.
pub open spec fn orders<T, F: Fn(T, T) -> bool>(less: F, lt: spec_fn(T, T) -> bool) -> bool {
    &&& strict_weak_order(lt)
    &&& forall|a: T, b: T, r: bool| #[trigger] call_ensures(less, (a, b), r) ==> r == lt(a, b)
}

/// `less` can be called on any two elements, and answers by some strict weak order.
pub open spec fn is_comparator<T, F: Fn(T, T) -> bool>(less: F) -> bool {
    &&& forall|a: T, b: T| #[trigger] call_requires(less, (a, b))
    &&& exists|lt: spec_fn(T, T) -> bool| orders(less, lt)
}

/// `s` with the elements at `i` and `j` exchanged.
pub open spec fn swapped<T>(s: Seq<T>, i: int, j: int) -> Seq<T> {
    s.update(i, s[j]).update(j, s[i])
}

fn swap_at<T: Copy>(values: &mut [T], i: usize, j: usize)
    requires
        i < old(values)@.len(),
        j < old(values)@.len(),
    ensures
        final(values)@ == swapped(old(values)@, i as int, j as int),
{
    let a = values[i];
    values[i] = values[j];
    values[j] = a;
}

/// Where the median of the elements at `left`, `middle` and `right` stands.
pub open spec fn median_index<T>(
    s: Seq<T>,
    lt: spec_fn(T, T) -> bool,
    left: int,
    middle: int,
    right: int,
) -> int {
    if lt(s[left], s[middle]) {
        if lt(s[middle], s[right]) {
            middle
        } else if lt(s[left], s[right]) {
            right
        } else {
            left
        }
    } else if lt(s[left], s[right]) {
        left
    } else if lt(s[middle], s[right]) {
        right
    } else {
        middle
    }
}

/// The first position from `from` on whose element does not precede `pivot`.
pub open spec fn scan_up<T>(s: Seq<T>, lt: spec_fn(T, T) -> bool, pivot: T, from: int) -> int
    decreases s.len() - from,
{
    if 0 <= from < s.len() && lt(s[from], pivot) {
        scan_up(s, lt, pivot, from + 1)
    } else {
        from
    }
}

/// The last position down from `from` whose element `pivot` does not precede.
pub open spec fn scan_down<T>(s: Seq<T>, lt: spec_fn(T, T) -> bool, pivot: T, from: int) -> int
    decreases from + 1,
{
    if 0 <= from < s.len() && lt(pivot, s[from]) {
        scan_down(s, lt, pivot, from - 1)
    } else {
        from
    }
}

/// What the two scans of a partition leave of the elements from `left` up to, and
/// without, `right`, and where they meet.
pub open spec fn partitioned<T>(
    s: Seq<T>,
    lt: spec_fn(T, T) -> bool,
    pivot: T,
    left: int,
    right: int,
) -> (Seq<T>, int)
    decreases right - left,
{
    let l = scan_up(s, lt, pivot, left);
    let r = scan_down(s, lt, pivot, right - 1);
    if l >= r || l < left || r >= right {
        (s, l)
    } else {
        partitioned(swapped(s, l, r), lt, pivot, l + 1, r)
    }
}

/// `s` with the range from `first` to `last` split around the median of three of
/// its elements, and the position of the cut.
pub open spec fn pivot_partition<T>(
    s: Seq<T>,
    lt: spec_fn(T, T) -> bool,
    first: int,
    last: int,
) -> (Seq<T>, int) {
    let middle = first + (last - first) / 2;
    let start = swapped(s, first, median_index(s, lt, first + 1, middle, last - 1));
    partitioned(start, lt, start[first], first + 1, last)
}

/// The greater of the two children of the element at `hole`; the second where neither precedes
/// the other. Places are counted from `first`.
pub open spec fn greater_child<T>(
    s: Seq<T>,
    lt: spec_fn(T, T) -> bool,
    first: int,
    hole: int,
) -> int {
    if lt(s[first + 2 * hole + 2], s[first + 2 * hole + 1]) {
        2 * hole + 1
    } else {
        2 * hole + 2
    }
}

/// `s` with a hole of a heap of `len` elements moved down to a leaf, and where it ends: the
/// greater child moves up each time.
pub open spec fn descended<T>(
    s: Seq<T>,
    lt: spec_fn(T, T) -> bool,
    first: int,
    len: int,
    hole: int,
) -> (Seq<T>, int)
    decreases len - hole,
{
    if hole < 0 {
        (s, hole)
    } else if 2 * hole + 2 < len {
        let child = greater_child(s, lt, first, hole);
        descended(s.update(first + hole, s[first + child]), lt, first, len, child)
    } else if 2 * hole + 2 == len {
        (s.update(first + hole, s[first + 2 * hole + 1]), 2 * hole + 1)
    } else {
        (s, hole)
    }
}

/// `s` with `value` put into a hole of a heap, after the hole has moved up past the parents that
/// precede the value, but no further than `top`.
pub open spec fn climbed<T>(
    s: Seq<T>,
    lt: spec_fn(T, T) -> bool,
    first: int,
    top: int,
    hole: int,
    value: T,
) -> Seq<T>
    decreases hole,
{
    let parent = (hole - 1) / 2;
    if 0 <= top < hole && lt(s[first + parent], value) {
        climbed(s.update(first + hole, s[first + parent]), lt, first, top, parent, value)
    } else {
        s.update(first + hole, value)
    }
}

/// `s` with `value` sunk into a heap of `len` elements from the place `hole` on.
pub open spec fn adjusted<T>(
    s: Seq<T>,
    lt: spec_fn(T, T) -> bool,
    first: int,
    hole: int,
    len: int,
    value: T,
) -> Seq<T> {
    let (t, leaf) = descended(s, lt, first, len, hole);
    climbed(t, lt, first, hole, leaf, value)
}

/// `s` with the first `n` of `len` elements sunk one by one, the last of them first.
pub open spec fn heaped<T>(
    s: Seq<T>,
    lt: spec_fn(T, T) -> bool,
    first: int,
    len: int,
    n: nat,
) -> Seq<T>
    decreases n,
{
    if n == 0 {
        s
    } else {
        heaped(
            adjusted(s, lt, first, n - 1, len, s[first + n - 1]),
            lt,
            first,
            len,
            (n - 1) as nat,
        )
    }
}

/// `s` with a heap of `len` elements taken apart: its greatest element goes to its end, time and
/// again.
pub open spec fn unheaped<T>(s: Seq<T>, lt: spec_fn(T, T) -> bool, first: int, len: nat) -> Seq<T>
    decreases len,
{
    if len <= 1 {
        s
    } else {
        let end = len - 1;
        unheaped(
            adjusted(
                s.update(first + end, s[first]),
                lt,
                first,
                0,
                end,
                s[first + end],
            ),
            lt,
            first,
            end as nat,
        )
    }
}

/// `s` with the range from `first` to `last` sorted by way of a heap.
pub open spec fn heap_sorted<T>(
    s: Seq<T>,
    lt: spec_fn(T, T) -> bool,
    first: int,
    last: int,
) -> Seq<T> {
    let len = last - first;
    unheaped(heaped(s, lt, first, len, (len / 2) as nat), lt, first, len as nat)
}

/// What the quicksort part leaves of the range from `first` to `last`: ranges of at most
/// `THRESHOLD` elements, each in its place. Where a range is still longer when the depth limit
/// is used up, it is sorted by way of a heap.
pub open spec fn introsorted<T>(
    s: Seq<T>,
    lt: spec_fn(T, T) -> bool,
    first: int,
    last: int,
    depth: nat,
) -> Seq<T>
    decreases depth,
{
    if last - first <= THRESHOLD {
        s
    } else if depth == 0 {
        heap_sorted(s, lt, first, last)
    } else {
        let (split, cut) = pivot_partition(s, lt, first, last);
        introsorted(
            introsorted(split, lt, cut, last, (depth - 1) as nat),
            lt,
            first,
            cut,
            (depth - 1) as nat,
        )
    }
}

/// How far down from `position` an element equal to `value` slides: to just above
/// the first element met that it does not precede.
pub open spec fn slide<T>(s: Seq<T>, lt: spec_fn(T, T) -> bool, value: T, position: int) -> int
    decreases position,
{
    if 0 < position <= s.len() && lt(value, s[position - 1]) {
        slide(s, lt, value, position - 1)
    } else {
        position
    }
}

/// `s` with the element at `index` moved down to where it slides.
pub open spec fn inserted<T>(s: Seq<T>, lt: spec_fn(T, T) -> bool, index: int) -> Seq<T> {
    s.remove(index).insert(slide(s, lt, s[index], index), s[index])
}

/// `s` with the elements from `from` up to, and without, `to` inserted one by one.
pub open spec fn insertion_sorted<T>(
    s: Seq<T>,
    lt: spec_fn(T, T) -> bool,
    from: int,
    to: int,
) -> Seq<T>
    decreases to - from,
{
    if from >= to {
        s
    } else {
        insertion_sorted(inserted(s, lt, from), lt, from + 1, to)
    }
}

/// Twice the binary logarithm of `n`, rounded down before it is doubled.
pub open spec fn depth_limit(n: nat) -> nat
    decreases n,
{
    if n <= 1 {
        0
    } else {
        2 + depth_limit(n / 2)
    }
}

/// The arrangement in which the whole sort leaves `s`.
pub open spec fn sorted_model<T>(s: Seq<T>, lt: spec_fn(T, T) -> bool) -> Seq<T> {
    let t = introsorted(s, lt, 0, s.len() as int, depth_limit(s.len()));
    insertion_sorted(t, lt, 1, t.len() as int)
}

/// No element of `s` precedes an earlier one.
pub open spec fn sorted_by<T>(s: Seq<T>, lt: spec_fn(T, T) -> bool) -> bool {
    forall|i: int, j: int|
        #![trigger s[i], s[j]]
        0 <= i < j < s.len() ==> !lt(s[j], s[i])
}

/// Replacing one element takes the old one out and puts the new one in.
proof fn lemma_update_multiset<T>(s: Seq<T>, i: int, value: T)
    requires
        0 <= i < s.len(),
    ensures
        s.update(i, value).to_multiset() == s.to_multiset().remove(s[i]).insert(value),
{
    vstd::seq_lib::to_multiset_remove(s, i);
    vstd::seq_lib::to_multiset_insert(s.remove(i), i, value);
    assert(s.update(i, value) =~= s.remove(i).insert(i, value));
}

/// Exchanging two elements keeps the elements.
pub proof fn lemma_swapped_multiset<T>(s: Seq<T>, i: int, j: int)
    requires
        0 <= i < s.len(),
        0 <= j < s.len(),
    ensures
        swapped(s, i, j).to_multiset() == s.to_multiset(),
{
    broadcast use vstd::multiset::group_multiset_axioms;

    let t = s.update(i, s[j]);
    lemma_update_multiset(s, i, s[j]);
    lemma_update_multiset(t, j, s[i]);
    vstd::seq_lib::to_multiset_contains(s, s[i]);
    vstd::seq_lib::to_multiset_contains(s, s[j]);
    vstd::seq_lib::to_multiset_contains(t, t[j]);
    assert(swapped(s, i, j).to_multiset() =~= s.to_multiset());
}

/// Moving one element of a sequence keeps its elements.
proof fn lemma_moved_multiset<T>(s: Seq<T>, from: int, to: int)
    requires
        0 <= from < s.len(),
        0 <= to < s.len(),
    ensures
        s.remove(from).insert(to, s[from]).to_multiset() == s.to_multiset(),
{
    broadcast use vstd::multiset::group_multiset_axioms;

    vstd::seq_lib::to_multiset_remove(s, from);
    vstd::seq_lib::to_multiset_insert(s.remove(from), to, s[from]);
    vstd::seq_lib::to_multiset_contains(s, s[from]);
    assert(s.remove(from).insert(to, s[from]).to_multiset() =~= s.to_multiset());
}

proof fn lemma_scan_up<T>(s: Seq<T>, lt: spec_fn(T, T) -> bool, pivot: T, from: int)
    ensures
        from <= scan_up(s, lt, pivot, from),
        forall|k: int| from <= k < scan_up(s, lt, pivot, from) ==> lt(#[trigger] s[k], pivot),
        0 <= from < s.len() ==> scan_up(s, lt, pivot, from) <= s.len(),
        0 <= from <= scan_up(s, lt, pivot, from) < s.len() ==> !lt(
            s[scan_up(s, lt, pivot, from)],
            pivot,
        ),
    decreases s.len() - from,
{
    if 0 <= from < s.len() && lt(s[from], pivot) {
        lemma_scan_up(s, lt, pivot, from + 1);
    }
}

proof fn lemma_scan_down<T>(s: Seq<T>, lt: spec_fn(T, T) -> bool, pivot: T, from: int)
    ensures
        scan_down(s, lt, pivot, from) <= from,
        forall|k: int| scan_down(s, lt, pivot, from) < k <= from ==> lt(pivot, #[trigger] s[k]),
        -1 <= from ==> -1 <= scan_down(s, lt, pivot, from),
        0 <= scan_down(s, lt, pivot, from) <= from < s.len() ==> !lt(
            pivot,
            s[scan_down(s, lt, pivot, from)],
        ),
    decreases from + 1,
{
    if 0 <= from < s.len() && lt(pivot, s[from]) {
        lemma_scan_down(s, lt, pivot, from - 1);
    }
}

/// Answers `less` and ties the answer to the order that it stands for.
fn is_less<T: Copy, F: Fn(T, T) -> bool + Copy>(less: F, a: T, b: T) -> (r: bool)
    requires
        is_comparator(less),
    ensures
        forall|lt: spec_fn(T, T) -> bool| #[trigger] orders(less, lt) ==> r == lt(a, b),
{
    less(a, b)
}

/// Puts the median of three elements at `result`.
pub fn move_median_to_first<T: Copy>(
    values: &mut [T],
    result: usize,
    left: usize,
    middle: usize,
    right: usize,
    less: impl Fn(T, T) -> bool + Copy,
)
    requires
        is_comparator(less),
        result < old(values)@.len(),
        left < old(values)@.len(),
        middle < old(values)@.len(),
        right < old(values)@.len(),
    ensures
        forall|lt: spec_fn(T, T) -> bool| #[trigger]
            orders(less, lt) ==> final(values)@ == swapped(
                old(values)@,
                result as int,
                median_index(old(values)@, lt, left as int, middle as int, right as int),
            ),
{
    let selected: usize = if is_less(less, values[left], values[middle]) {
        if is_less(less, values[middle], values[right]) {
            middle
        } else if is_less(less, values[left], values[right]) {
            right
        } else {
            left
        }
    } else if is_less(less, values[left], values[right]) {
        left
    } else if is_less(less, values[middle], values[right]) {
        right
    } else {
        middle
    };
    swap_at(values, result, selected);
}

/// Splits the range around the median of three of its elements and answers where.
pub fn partition_pivot<T: Copy>(
    values: &mut [T],
    first: usize,
    last: usize,
    less: impl Fn(T, T) -> bool + Copy,
) -> (cut: usize)
    requires
        is_comparator(less),
        first + 3 < last <= old(values)@.len(),
    ensures
        forall|lt: spec_fn(T, T) -> bool| #[trigger]
            orders(less, lt) ==> (final(values)@, cut as int) == pivot_partition(
                old(values)@,
                lt,
                first as int,
                last as int,
            ),
        first < cut < last,
        final(values)@.to_multiset() == old(values)@.to_multiset(),
        final(values)@.len() == old(values)@.len(),
        forall|k: int|
            0 <= k < first || last <= k < old(values)@.len() ==> #[trigger] final(values)@[k]
                == old(values)@[k],
{
    let ghost some = choose|lt: spec_fn(T, T) -> bool| orders(less, lt);
    let ghost start = values@;
    let middle: usize = first + (last - first) / 2;
    move_median_to_first(values, first, first + 1, middle, last - 1, less);
    proof {
        lemma_swapped_multiset(
            start,
            first as int,
            median_index(start, some, first + 1, middle as int, last - 1),
        );
    }
    let pivot = values[first];
    let mut left: usize = first + 1;
    let mut right: usize = last;
    proof {
        let s = values@;
        assert forall|lt: spec_fn(T, T) -> bool| #[trigger] orders(less, lt) implies exists|k: int|
            left <= k < last && !lt(#[trigger] s[k], pivot) by {
            assert(!lt(s[first + 1], pivot) || !lt(s[middle as int], pivot) || !lt(
                s[last - 1],
                pivot,
            ));
        }
    }
    loop
        invariant
            is_comparator(less),
            orders(less, some),
            start == old(values)@,
            first < left <= right <= last <= values@.len(),
            values@.len() == start.len(),
            values@[first as int] == pivot,
            values@.to_multiset() == start.to_multiset(),
            forall|k: int|
                0 <= k < first || last <= k < start.len() ==> #[trigger] values@[k] == start[k],
            forall|lt: spec_fn(T, T) -> bool| #[trigger]
                orders(less, lt) ==> exists|k: int|
                    left <= k < last && !lt(#[trigger] values@[k], pivot),
            forall|lt: spec_fn(T, T) -> bool| #[trigger]
                orders(less, lt) ==> pivot_partition(start, lt, first as int, last as int)
                    == partitioned(values@, lt, pivot, left as int, right as int),
        decreases right - left,
    {
        let ghost s = values@;
        let ghost from = left as int;
        let ghost above = right as int;
        while is_less(less, values[left], pivot)
            invariant
                is_comparator(less),
                orders(less, some),
                first < from <= left < last <= values@.len(),
                s == values@,
                forall|lt: spec_fn(T, T) -> bool| #[trigger]
                    orders(less, lt) ==> scan_up(s, lt, pivot, left as int) == scan_up(
                        s,
                        lt,
                        pivot,
                        from,
                    ),
                forall|lt: spec_fn(T, T) -> bool| #[trigger]
                    orders(less, lt) ==> exists|k: int|
                        left <= k < last && !lt(#[trigger] values@[k], pivot),
            ensures
                forall|lt: spec_fn(T, T) -> bool| #[trigger]
                    orders(less, lt) ==> left == scan_up(s, lt, pivot, from),
                left < last,
            decreases last - left,
        {
            left = left + 1;
        }
        right = right - 1;
        while is_less(less, pivot, values[right])
            invariant
                is_comparator(less),
                orders(less, some),
                first <= right < last <= values@.len(),
                s == values@,
                values@[first as int] == pivot,
                forall|lt: spec_fn(T, T) -> bool| #[trigger]
                    orders(less, lt) ==> scan_down(s, lt, pivot, right as int) == scan_down(
                        s,
                        lt,
                        pivot,
                        above - 1,
                    ),
            ensures
                forall|lt: spec_fn(T, T) -> bool| #[trigger]
                    orders(less, lt) ==> right == scan_down(s, lt, pivot, above - 1),
            decreases right - first,
        {
            right = right - 1;
        }
        proof {
            lemma_scan_up(s, some, pivot, from);
            lemma_scan_down(s, some, pivot, above - 1);
        }
        if left >= right {
            proof {
                assert forall|lt: spec_fn(T, T) -> bool| #[trigger] orders(less, lt) implies (
                values@,
                    left as int,
                ) == pivot_partition(start, lt, first as int, last as int) by {
                    lemma_scan_up(s, lt, pivot, from);
                    lemma_scan_down(s, lt, pivot, above - 1);
                }
            }
            return left;
        }
        swap_at(values, left, right);
        proof {
            lemma_swapped_multiset(s, left as int, right as int);
            assert forall|lt: spec_fn(T, T) -> bool| #[trigger] orders(
                less,
                lt,
            ) implies pivot_partition(start, lt, first as int, last as int) == partitioned(
                values@,
                lt,
                pivot,
                left + 1,
                right as int,
            ) && !lt(values@[right as int], pivot) by {
                lemma_scan_up(s, lt, pivot, from);
                lemma_scan_down(s, lt, pivot, above - 1);
            }
        }
        left = left + 1;
    }
}

/// The place in a heap of the parent of the element at `c`.
pub open spec fn parent(c: int) -> int {
    (c - 1) / 2
}

/// The element of a heap at `a` does not precede the one at `c`.
pub open spec fn over<T>(s: Seq<T>, lt: spec_fn(T, T) -> bool, first: int, a: int, c: int) -> bool {
    !lt(s[first + a], s[first + c])
}

/// From the place `top` on, no parent precedes its child.
spec fn is_heap<T>(s: Seq<T>, lt: spec_fn(T, T) -> bool, first: int, len: int, top: int) -> bool {
    forall|c: int|
        0 < c < len && top <= parent(c) ==> #[trigger] over(s, lt, first, parent(c), c)
}

/// The place `h` is `top` or lies below it.
spec fn is_under(h: int, top: int) -> bool
    decreases h,
{
    h == top || 0 <= top < h && is_under(parent(h), top)
}

/// What `is_heap` says, but for the element in the hole; whose parent does not precede its
/// children.
spec fn is_holed<T>(
    s: Seq<T>,
    lt: spec_fn(T, T) -> bool,
    first: int,
    len: int,
    top: int,
    h: int,
) -> bool {
    &&& forall|c: int|
        0 < c < len && top <= parent(c) && c != h && parent(c) != h ==> #[trigger] over(
            s,
            lt,
            first,
            parent(c),
            c,
        )
    &&& h > top ==> forall|c: int|
        0 < c < len && parent(c) == h ==> #[trigger] over(s, lt, first, parent(h), c)
}

/// `p` holds of the elements from `first` up to, and without, `last`.
spec fn all_in<T>(s: Seq<T>, first: int, last: int, p: spec_fn(T) -> bool) -> bool {
    forall|k: int| first <= k < last ==> p(#[trigger] s[k])
}

/// `p` holds of all elements of a heap but the one in the hole.
spec fn all_but<T>(s: Seq<T>, first: int, len: int, h: int, p: spec_fn(T) -> bool) -> bool {
    forall|k: int| first <= k < first + len && k != first + h ==> p(#[trigger] s[k])
}

/// Two sequences differ at most from `first` up to, and without, `last`.
spec fn same_outside<T>(s: Seq<T>, t: Seq<T>, first: int, last: int) -> bool {
    &&& s.len() == t.len()
    &&& forall|k: int|
        0 <= k < first || last <= k < s.len() ==> #[trigger] s[k] == t[k]
}

proof fn lemma_same_outside<T>(s: Seq<T>, t: Seq<T>, u: Seq<T>, first: int, last: int)
    requires
        same_outside(s, t, first, last),
        same_outside(t, u, first, last),
    ensures
        same_outside(s, u, first, last),
{
    assert forall|k: int| 0 <= k < first || last <= k < s.len() implies #[trigger] s[k]
        == u[k] by {
        assert(t[k] == u[k]);
    }
}

/// Moving a hole keeps the elements, once the hole is filled.
proof fn lemma_hole_moved<T>(s: Seq<T>, from: int, to: int, value: T)
    requires
        0 <= from < s.len(),
        0 <= to < s.len(),
        from != to,
    ensures
        s.update(from, s[to]).update(to, value).to_multiset() == s.update(
            from,
            value,
        ).to_multiset(),
{
    let filled = s.update(from, value);
    lemma_swapped_multiset(filled, from, to);
    assert(swapped(filled, from, to) =~= s.update(from, s[to]).update(to, value));
}

proof fn lemma_descended<T>(
    s: Seq<T>,
    lt: spec_fn(T, T) -> bool,
    first: int,
    len: int,
    top: int,
    h: int,
    value: T,
    p: spec_fn(T) -> bool,
)
    requires
        strict_weak_order(lt),
        0 <= first,
        first + len <= s.len(),
        0 <= top <= h < len,
        is_under(h, top),
        is_holed(s, lt, first, len, top, h),
        all_but(s, first, len, h, p),
    ensures
        ({
            let (t, leaf) = descended(s, lt, first, len, h);
            &&& top <= leaf < len <= 2 * leaf + 1
            &&& is_under(leaf, top)
            &&& is_holed(t, lt, first, len, top, leaf)
            &&& same_outside(s, t, first, first + len)
            &&& t.update(first + leaf, value).to_multiset() == s.update(
                first + h,
                value,
            ).to_multiset()
            &&& all_but(t, first, len, leaf, p)
        }),
    decreases len - h,
{
    if 2 * h + 2 <= len {
        let child = if 2 * h + 2 < len {
            greater_child(s, lt, first, h)
        } else {
            2 * h + 1
        };
        let t = s.update(first + h, s[first + child]);
        assert(parent(child) == h);
        assert(is_under(child, top));
        lemma_hole_moved(s, first + h, first + child, value);
        assert forall|c: int|
            0 < c < len && top <= parent(c) && c != child && parent(c)
                != child implies #[trigger] over(t, lt, first, parent(c), c) by {
            if c == h {
                assert(parent(child) == h);
                assert(over(s, lt, first, parent(h), child));
            } else if parent(c) == h {
                assert(c == 2 * h + 1 || c == 2 * h + 2);
            } else {
                assert(over(s, lt, first, parent(c), c));
            }
        }
        assert forall|c: int| 0 < c < len && parent(c) == child implies #[trigger] over(
            t,
            lt,
            first,
            parent(child),
            c,
        ) by {
            assert(over(s, lt, first, parent(c), c));
        }
        assert(is_holed(t, lt, first, len, top, child));
        assert(all_but(t, first, len, child, p));
        if 2 * h + 2 < len {
            lemma_descended(t, lt, first, len, top, child, value, p);
            lemma_same_outside(
                s,
                t,
                descended(t, lt, first, len, child).0,
                first,
                first + len,
            );
        }
    }
}

proof fn lemma_climbed<T>(
    s: Seq<T>,
    lt: spec_fn(T, T) -> bool,
    first: int,
    len: int,
    top: int,
    h: int,
    value: T,
    p: spec_fn(T) -> bool,
)
    requires
        strict_weak_order(lt),
        0 <= first,
        first + len <= s.len(),
        0 <= top <= h < len,
        is_under(h, top),
        is_holed(s, lt, first, len, top, h),
        forall|c: int| 0 < c < len && #[trigger] parent(c) == h ==> !lt(value, s[first + c]),
        all_but(s, first, len, h, p),
        p(value),
    ensures
        ({
            let t = climbed(s, lt, first, top, h, value);
            &&& is_heap(t, lt, first, len, top)
            &&& same_outside(s, t, first, first + len)
            &&& t.to_multiset() == s.update(first + h, value).to_multiset()
            &&& all_in(t, first, first + len, p)
        }),
    decreases h,
{
    let up = parent(h);
    if top < h && lt(s[first + up], value) {
        let t = s.update(first + h, s[first + up]);
        assert(is_under(up, top));
        assert(top <= up < h);
        lemma_hole_moved(s, first + h, first + up, value);
        assert forall|c: int|
            0 < c < len && top <= parent(c) && c != up && parent(c) != up implies #[trigger] over(
            t,
            lt,
            first,
            parent(c),
            c,
        ) by {
            if parent(c) == h {
                assert(over(s, lt, first, parent(h), c));
            } else {
                assert(over(s, lt, first, parent(c), c));
            }
        }
        if up > top {
            assert(is_under(parent(up), top));
            assert(over(s, lt, first, parent(up), up));
            assert forall|c: int| 0 < c < len && parent(c) == up implies #[trigger] over(
                t,
                lt,
                first,
                parent(up),
                c,
            ) by {
                if c != h {
                    assert(over(s, lt, first, parent(c), c));
                }
            }
        }
        assert forall|c: int| 0 < c < len && #[trigger] parent(c) == up implies !lt(
            value,
            t[first + c],
        ) by {
            if c != h {
                assert(over(s, lt, first, parent(c), c));
                if lt(value, s[first + c]) {
                    assert(!lt(s[first + c], value));
                    assert(!lt(s[first + up], value));
                }
            }
        }
        lemma_climbed(t, lt, first, len, top, up, value, p);
        lemma_same_outside(
            s,
            t,
            climbed(t, lt, first, top, up, value),
            first,
            first + len,
        );
    } else {
        let t = s.update(first + h, value);
        assert forall|c: int| 0 < c < len && top <= parent(c) implies #[trigger] over(
            t,
            lt,
            first,
            parent(c),
            c,
        ) by {
            if c != h && parent(c) != h {
                assert(over(s, lt, first, parent(c), c));
            }
        }
    }
}


/// Sinking a value makes the heap begin one place earlier.
proof fn lemma_adjusted<T>(
    s: Seq<T>,
    lt: spec_fn(T, T) -> bool,
    first: int,
    hole: int,
    len: int,
    value: T,
    p: spec_fn(T) -> bool,
)
    requires
        strict_weak_order(lt),
        0 <= first,
        first + len <= s.len(),
        0 <= hole < len,
        is_heap(s, lt, first, len, hole + 1),
        all_but(s, first, len, hole, p),
        p(value),
    ensures
        ({
            let t = adjusted(s, lt, first, hole, len, value);
            &&& is_heap(t, lt, first, len, hole)
            &&& same_outside(s, t, first, first + len)
            &&& t.to_multiset() == s.update(first + hole, value).to_multiset()
            &&& all_in(t, first, first + len, p)
        }),
{
    lemma_descended(s, lt, first, len, hole, hole, value, p);
    let (t, leaf) = descended(s, lt, first, len, hole);
    lemma_climbed(t, lt, first, len, hole, leaf, value, p);
}

proof fn lemma_heaped<T>(
    s: Seq<T>,
    lt: spec_fn(T, T) -> bool,
    first: int,
    len: int,
    n: nat,
    p: spec_fn(T) -> bool,
)
    requires
        strict_weak_order(lt),
        0 <= first,
        first + len <= s.len(),
        n <= len,
        is_heap(s, lt, first, len, n as int),
        all_in(s, first, first + len, p),
    ensures
        ({
            let t = heaped(s, lt, first, len, n);
            &&& is_heap(t, lt, first, len, 0)
            &&& same_outside(s, t, first, first + len)
            &&& t.to_multiset() == s.to_multiset()
            &&& all_in(t, first, first + len, p)
        }),
    decreases n,
{
    if n > 0 {
        let value = s[first + n - 1];
        lemma_adjusted(s, lt, first, n - 1, len, value, p);
        assert(s.update(first + n - 1, value) =~= s);
        lemma_heaped(
            adjusted(s, lt, first, n - 1, len, value),
            lt,
            first,
            len,
            (n - 1) as nat,
            p,
        );
    }
}

/// No element of a heap comes after the first.
proof fn lemma_root<T>(s: Seq<T>, lt: spec_fn(T, T) -> bool, first: int, len: int, c: int)
    requires
        strict_weak_order(lt),
        is_heap(s, lt, first, len, 0),
        0 <= c < len,
    ensures
        !lt(s[first], s[first + c]),
    decreases c,
{
    if c > 0 {
        lemma_root(s, lt, first, len, parent(c));
        assert(over(s, lt, first, parent(c), c));
    } else {
        assert(lt(s[first], s[first]) ==> !lt(s[first], s[first]));
    }
}

proof fn lemma_unheaped<T>(
    s: Seq<T>,
    lt: spec_fn(T, T) -> bool,
    first: int,
    len: nat,
    p: spec_fn(T) -> bool,
)
    requires
        strict_weak_order(lt),
        0 <= first,
        first + len <= s.len(),
        is_heap(s, lt, first, len as int, 0),
        all_in(s, first, first + len, p),
    ensures
        ({
            let t = unheaped(s, lt, first, len);
            &&& same_outside(s, t, first, first + len)
            &&& t.to_multiset() == s.to_multiset()
            &&& all_in(t, first, first + len, p)
            &&& forall|i: int, j: int|
                #![trigger t[i], t[j]]
                first <= i < j < first + len ==> !lt(t[j], t[i])
        }),
    decreases len,
{
    if len > 1 {
        let end = len - 1;
        let greatest = s[first];
        let value = s[first + end];
        let below = |x: T| p(x) && !lt(greatest, x);
        let u = s.update(first + end, greatest);
        assert forall|k: int| first <= k < first + len implies below(#[trigger] s[k]) by {
            lemma_root(s, lt, first, len as int, k - first);
        }
        assert forall|c: int| 0 < c < end && 1 <= parent(c) implies #[trigger] over(
            u,
            lt,
            first,
            parent(c),
            c,
        ) by {
            assert(over(s, lt, first, parent(c), c));
        }
        lemma_adjusted(u, lt, first, 0, end, value, below);
        let v = adjusted(u, lt, first, 0, end, value);
        assert(u.update(first, value) =~= swapped(s, first, first + end));
        lemma_swapped_multiset(s, first, first + end);
        lemma_unheaped(v, lt, first, end as nat, below);
        let t = unheaped(v, lt, first, end as nat);
        assert(u[first + end] == greatest);
        assert(v[first + end] == greatest);
        assert(t[first + end] == greatest);
        assert forall|k: int| 0 <= k < first || first + len <= k < s.len() implies #[trigger] s[k]
            == t[k] by {
            assert(u[k] == v[k]);
            assert(v[k] == t[k]);
        }
        assert(below(greatest));
        assert forall|k: int| first <= k < first + len implies p(#[trigger] t[k]) by {
            if k < first + end {
                assert(below(t[k]));
            }
        }
        assert forall|i: int, j: int|
            #![trigger t[i], t[j]]
            first <= i < j < first + len implies !lt(t[j], t[i]) by {
            if j == first + end {
                assert(below(t[i]));
            }
        }
    }
}

/// The range comes out sorted, with the elements that it had.
proof fn lemma_heap_sorted<T>(
    s: Seq<T>,
    lt: spec_fn(T, T) -> bool,
    first: int,
    last: int,
    p: spec_fn(T) -> bool,
)
    requires
        strict_weak_order(lt),
        0 <= first <= last <= s.len(),
        all_in(s, first, last, p),
    ensures
        ({
            let t = heap_sorted(s, lt, first, last);
            &&& same_outside(s, t, first, last)
            &&& t.to_multiset() == s.to_multiset()
            &&& all_in(t, first, last, p)
            &&& forall|i: int, j: int|
                #![trigger t[i], t[j]]
                first <= i < j < last ==> !lt(t[j], t[i])
        }),
{
    let len = last - first;
    let n = (len / 2) as nat;
    assert(is_heap(s, lt, first, len, n as int));
    lemma_heaped(s, lt, first, len, n, p);
    lemma_unheaped(heaped(s, lt, first, len, n), lt, first, len as nat, p);
}

/// What is left of the cut does not come after the pivot, and what is right of it does not
/// precede it.
proof fn lemma_partitioned<T>(
    s: Seq<T>,
    lt: spec_fn(T, T) -> bool,
    pivot: T,
    first: int,
    left: int,
    right: int,
    last: int,
    p: spec_fn(T) -> bool,
)
    requires
        strict_weak_order(lt),
        0 <= first < left <= right <= last <= s.len(),
        forall|k: int| first <= k < left ==> !lt(pivot, #[trigger] s[k]),
        forall|k: int| right <= k < last ==> !lt(#[trigger] s[k], pivot),
        exists|k: int| left <= k < last && !lt(#[trigger] s[k], pivot),
        all_in(s, first, last, p),
    ensures
        ({
            let (t, cut) = partitioned(s, lt, pivot, left, right);
            &&& first < cut < last
            &&& same_outside(s, t, first, last)
            &&& t.to_multiset() == s.to_multiset()
            &&& all_in(t, first, last, p)
            &&& forall|k: int| first <= k < cut ==> !lt(pivot, #[trigger] t[k])
            &&& forall|k: int| cut <= k < last ==> !lt(#[trigger] t[k], pivot)
        }),
    decreases right - left,
{
    let l = scan_up(s, lt, pivot, left);
    let r = scan_down(s, lt, pivot, right - 1);
    lemma_scan_up(s, lt, pivot, left);
    lemma_scan_down(s, lt, pivot, right - 1);
    let stop = choose|k: int| left <= k < last && !lt(#[trigger] s[k], pivot);
    assert(l <= stop);
    if !(l >= r || l < left || r >= right) {
        let t = swapped(s, l, r);
        lemma_swapped_multiset(s, l, r);
        assert(!lt(t[r], pivot));
        assert forall|k: int| first <= k < l + 1 implies !lt(pivot, #[trigger] t[k]) by {
            if left <= k < l {
                assert(lt(s[k], pivot));
            }
        }
        assert forall|k: int| r <= k < last implies !lt(#[trigger] t[k], pivot) by {
            if r < k < right {
                assert(lt(pivot, s[k]));
            }
        }
        assert(all_in(t, first, last, p));
        lemma_partitioned(t, lt, pivot, first, l + 1, r, last, p);
        let (u, cut) = partitioned(t, lt, pivot, l + 1, r);
        assert(partitioned(s, lt, pivot, left, right) == (u, cut));
        assert forall|k: int| 0 <= k < first || last <= k < s.len() implies #[trigger] s[k]
            == u[k] by {
            assert(s[k] == t[k]);
            assert(t[k] == u[k]);
        }
    } else {
        assert(partitioned(s, lt, pivot, left, right) == (s, l));
        assert forall|k: int| first <= k < l implies !lt(pivot, #[trigger] s[k]) by {
            if left <= k {
                assert(lt(s[k], pivot));
            }
        }
        assert forall|k: int| l <= k < last implies !lt(#[trigger] s[k], pivot) by {
            if l < k < right {
                assert(lt(pivot, s[k]));
            }
        }
    }
}

proof fn lemma_pivot_partition<T>(
    s: Seq<T>,
    lt: spec_fn(T, T) -> bool,
    first: int,
    last: int,
    p: spec_fn(T) -> bool,
) -> (pivot: T)
    requires
        strict_weak_order(lt),
        0 <= first,
        first + 3 < last <= s.len(),
        all_in(s, first, last, p),
    ensures
        ({
            let (t, cut) = pivot_partition(s, lt, first, last);
            &&& first < cut < last
            &&& same_outside(s, t, first, last)
            &&& t.to_multiset() == s.to_multiset()
            &&& all_in(t, first, last, p)
            &&& forall|k: int| first <= k < cut ==> !lt(pivot, #[trigger] t[k])
            &&& forall|k: int| cut <= k < last ==> !lt(#[trigger] t[k], pivot)
        }),
{
    let middle = first + (last - first) / 2;
    let chosen = median_index(s, lt, first + 1, middle, last - 1);
    let start = swapped(s, first, chosen);
    let pivot = start[first];
    lemma_swapped_multiset(s, first, chosen);
    assert(lt(pivot, pivot) ==> !lt(pivot, pivot));
    assert(!lt(start[first + 1], pivot) || !lt(start[middle], pivot) || !lt(
        start[last - 1],
        pivot,
    ));
    assert(all_in(start, first, last, p));
    lemma_partitioned(start, lt, pivot, first, first + 1, last, last, p);
    let (t, cut) = pivot_partition(s, lt, first, last);
    assert forall|k: int| 0 <= k < first || last <= k < s.len() implies #[trigger] s[k]
        == t[k] by {
        assert(s[k] == start[k]);
        assert(start[k] == t[k]);
    }
    pivot
}

/// Every element of the range ends within a block of `THRESHOLD` elements of its place.
spec fn in_blocks<T>(s: Seq<T>, lt: spec_fn(T, T) -> bool, first: int, last: int) -> bool {
    forall|i: int, j: int|
        #![trigger s[i], s[j]]
        first <= i && i + THRESHOLD <= j < last ==> !lt(s[j], s[i])
}

proof fn lemma_introsorted<T>(
    s: Seq<T>,
    lt: spec_fn(T, T) -> bool,
    first: int,
    last: int,
    depth: nat,
    p: spec_fn(T) -> bool,
)
    requires
        strict_weak_order(lt),
        0 <= first <= last <= s.len(),
        all_in(s, first, last, p),
    ensures
        ({
            let t = introsorted(s, lt, first, last, depth);
            &&& same_outside(s, t, first, last)
            &&& t.to_multiset() == s.to_multiset()
            &&& all_in(t, first, last, p)
            &&& in_blocks(t, lt, first, last)
        }),
    decreases depth,
{
    if last - first <= THRESHOLD {
    } else if depth == 0 {
        lemma_heap_sorted(s, lt, first, last, p);
    } else {
        let d = (depth - 1) as nat;
        let pivot = lemma_pivot_partition(s, lt, first, last, p);
        let (split, cut) = pivot_partition(s, lt, first, last);
        let high = |x: T| p(x) && !lt(x, pivot);
        let low = |x: T| p(x) && !lt(pivot, x);
        lemma_introsorted(split, lt, cut, last, d, high);
        let upper = introsorted(split, lt, cut, last, d);
        assert forall|k: int| first <= k < cut implies low(#[trigger] upper[k]) by {
            assert(upper[k] == split[k]);
        }
        lemma_introsorted(upper, lt, first, cut, d, low);
        let t = introsorted(upper, lt, first, cut, d);
        assert forall|k: int| cut <= k < last implies high(#[trigger] t[k]) by {
            assert(t[k] == upper[k]);
        }
        assert forall|k: int| first <= k < last implies p(#[trigger] t[k]) by {
            if k < cut {
                assert(low(t[k]));
            } else {
                assert(high(t[k]));
            }
        }
        assert forall|i: int, j: int|
            #![trigger t[i], t[j]]
            first <= i && i + THRESHOLD <= j < last implies !lt(t[j], t[i]) by {
            if i < cut {
                if j >= cut {
                    assert(low(t[i]));
                    assert(high(t[j]));
                }
            } else {
                assert(t[i] == upper[i] && t[j] == upper[j]);
            }
        }
        assert forall|k: int| 0 <= k < first || last <= k < s.len() implies #[trigger] s[k]
            == t[k] by {
            assert(s[k] == split[k]);
            assert(split[k] == upper[k]);
            assert(upper[k] == t[k]);
        }
    }
}

/// Sinks a value into a heap of `len` elements from the place `hole` on.
fn adjust_heap<T: Copy>(
    values: &mut [T],
    first: usize,
    hole: usize,
    len: usize,
    value: T,
    less: impl Fn(T, T) -> bool + Copy,
)
    requires
        is_comparator(less),
        first + len <= old(values)@.len(),
        first + len <= usize::MAX,
        hole < len,
    ensures
        final(values)@.len() == old(values)@.len(),
        forall|lt: spec_fn(T, T) -> bool| #[trigger]
            orders(less, lt) ==> final(values)@ == adjusted(
                old(values)@,
                lt,
                first as int,
                hole as int,
                len as int,
                value,
            ),
{
    let ghost start = values@;
    let mut h: usize = hole;
    while h < (len - 1) / 2
        invariant
            is_comparator(less),
            first + len <= values@.len(),
            first + len <= usize::MAX,
            values@.len() == start.len(),
            hole <= h < len,
            forall|lt: spec_fn(T, T) -> bool| #[trigger]
                orders(less, lt) ==> descended(values@, lt, first as int, len as int, h as int)
                    == descended(start, lt, first as int, len as int, hole as int),
        decreases len - h,
    {
        let right: usize = 2 * h + 2;
        let child: usize = if is_less(less, values[first + right], values[first + right - 1]) {
            right - 1
        } else {
            right
        };
        values[first + h] = values[first + child];
        h = child;
    }
    if len % 2 == 0 && h == (len - 2) / 2 {
        values[first + h] = values[first + 2 * h + 1];
        h = 2 * h + 1;
    }
    let ghost sunk = values@;
    let ghost leaf = h as int;
    proof {
        assert forall|lt: spec_fn(T, T) -> bool| #[trigger] orders(less, lt) implies descended(
            start,
            lt,
            first as int,
            len as int,
            hole as int,
        ) == (sunk, leaf) by {}
    }
    while h > hole && is_less(less, values[first + (h - 1) / 2], value)
        invariant
            is_comparator(less),
            first + len <= values@.len(),
            first + len <= usize::MAX,
            values@.len() == start.len(),
            h < len,
            forall|lt: spec_fn(T, T) -> bool| #[trigger]
                orders(less, lt) ==> climbed(
                    values@,
                    lt,
                    first as int,
                    hole as int,
                    h as int,
                    value,
                ) == climbed(sunk, lt, first as int, hole as int, leaf, value),
        decreases h,
    {
        let up: usize = (h - 1) / 2;
        values[first + h] = values[first + up];
        h = up;
    }
    values[first + h] = value;
}

/// Sorts the range from `first` to `last` by way of a heap.
fn heap_sort<T: Copy>(
    values: &mut [T],
    first: usize,
    last: usize,
    less: impl Fn(T, T) -> bool + Copy,
)
    requires
        is_comparator(less),
        first <= last <= old(values)@.len(),
    ensures
        final(values)@.len() == old(values)@.len(),
        forall|lt: spec_fn(T, T) -> bool| #[trigger]
            orders(less, lt) ==> final(values)@ == heap_sorted(
                old(values)@,
                lt,
                first as int,
                last as int,
            ),
{
    let ghost start = values@;
    let len: usize = last - first;
    let mut n: usize = len / 2;
    while n > 0
        invariant
            is_comparator(less),
            len == last - first,
            first <= last <= values@.len(),
            values@.len() == start.len(),
            n <= len / 2,
            forall|lt: spec_fn(T, T) -> bool| #[trigger]
                orders(less, lt) ==> heaped(values@, lt, first as int, len as int, n as nat)
                    == heaped(start, lt, first as int, len as int, (len / 2) as nat),
        decreases n,
    {
        n = n - 1;
        let value = values[first + n];
        adjust_heap(values, first, n, len, value, less);
    }
    let ghost heap = values@;
    let mut end: usize = len;
    while end > 1
        invariant
            is_comparator(less),
            len == last - first,
            first <= last <= values@.len(),
            values@.len() == start.len(),
            end <= len,
            forall|lt: spec_fn(T, T) -> bool| #[trigger]
                orders(less, lt) ==> unheaped(values@, lt, first as int, end as nat) == unheaped(
                    heap,
                    lt,
                    first as int,
                    len as nat,
                ),
        decreases end,
    {
        end = end - 1;
        let value = values[first + end];
        values[first + end] = values[first];
        adjust_heap(values, first, 0, end, value, less);
    }
}

/// Splits the range from `first` to `last` until no part is longer than `THRESHOLD`; a part that
/// is still longer when the depth is used up is sorted by way of a heap.
pub fn introsort_loop<T: Copy>(
    values: &mut [T],
    first: usize,
    last: usize,
    depth: usize,
    less: impl Fn(T, T) -> bool + Copy,
)
    requires
        is_comparator(less),
        first <= last <= old(values)@.len(),
    ensures
        forall|lt: spec_fn(T, T) -> bool| #[trigger]
            orders(less, lt) ==> final(values)@ == introsorted(
                old(values)@,
                lt,
                first as int,
                last as int,
                depth as nat,
            ),
        forall|lt: spec_fn(T, T) -> bool, i: int, j: int|
            #![trigger orders(less, lt), final(values)@[i], final(values)@[j]]
            orders(less, lt) && first <= i && i + THRESHOLD <= j < last ==> !lt(
                final(values)@[j],
                final(values)@[i],
            ),
        final(values)@.to_multiset() == old(values)@.to_multiset(),
        final(values)@.len() == old(values)@.len(),
        forall|k: int|
            0 <= k < first || last <= k < old(values)@.len() ==> #[trigger] final(values)@[k]
                == old(values)@[k],
    decreases depth,
{
    let ghost some = choose|lt: spec_fn(T, T) -> bool| orders(less, lt);
    let ghost start = values@;
    let mut end: usize = last;
    let mut budget: usize = depth;
    while end - first > THRESHOLD && budget > 0
        invariant
            is_comparator(less),
            orders(less, some),
            first <= end <= last <= values@.len(),
            values@.len() == start.len(),
            forall|lt: spec_fn(T, T) -> bool| #[trigger]
                orders(less, lt) ==> introsorted(
                    values@,
                    lt,
                    first as int,
                    end as int,
                    budget as nat,
                ) == introsorted(start, lt, first as int, last as int, depth as nat),
            budget <= depth,
        decreases end,
    {
        budget = budget - 1;
        let cut = partition_pivot(values, first, end, less);
        introsort_loop(values, cut, end, budget, less);
        end = cut;
    }
    if end - first > THRESHOLD {
        heap_sort(values, first, end, less);
    }
    proof {
        let any = |x: T| true;
        lemma_introsorted(start, some, first as int, last as int, depth as nat, any);
        assert forall|lt: spec_fn(T, T) -> bool, i: int, j: int|
            #![trigger orders(less, lt), values@[i], values@[j]]
            orders(less, lt) && first <= i && i + THRESHOLD <= j < last implies !lt(
            values@[j],
            values@[i],
        ) by {
            lemma_introsorted(start, lt, first as int, last as int, depth as nat, any);
        }
    }
}

/// Slides the element at `index` down past the elements that it precedes.
pub fn linear_insert<T: Copy>(
    values: &mut [T],
    index: usize,
    less: impl Fn(T, T) -> bool + Copy,
)
    requires
        is_comparator(less),
        index < old(values)@.len(),
    ensures
        forall|lt: spec_fn(T, T) -> bool| #[trigger]
            orders(less, lt) ==> final(values)@ == inserted(old(values)@, lt, index as int),
{
    let ghost start = values@;
    let value = values[index];
    let mut position: usize = index;
    while position > 0 && is_less(less, value, values[position - 1])
        invariant
            is_comparator(less),
            start.len() == values@.len(),
            position <= index < start.len(),
            value == start[index as int],
            forall|lt: spec_fn(T, T) -> bool| #[trigger]
                orders(less, lt) ==> slide(start, lt, value, position as int) == slide(
                    start,
                    lt,
                    value,
                    index as int,
                ),
            forall|k: int| 0 <= k < position || index < k < start.len() ==> values@[k] == start[k],
            forall|k: int| position < k <= index ==> #[trigger] values@[k] == start[k - 1],
        decreases position,
    {
        values[position] = values[position - 1];
        position = position - 1;
    }
    values[position] = value;
    assert(values@ =~= start.remove(index as int).insert(position as int, value));
}

proof fn lemma_slide<T>(s: Seq<T>, lt: spec_fn(T, T) -> bool, value: T, position: int)
    requires
        0 <= position <= s.len(),
    ensures
        0 <= slide(s, lt, value, position) <= position,
        forall|k: int|
            slide(s, lt, value, position) <= k < position ==> lt(value, #[trigger] s[k]),
        slide(s, lt, value, position) > 0 ==> !lt(value, s[slide(s, lt, value, position) - 1]),
    decreases position,
{
    if 0 < position <= s.len() && lt(value, s[position - 1]) {
        lemma_slide(s, lt, value, position - 1);
    }
}

/// Inserting the element after a sorted prefix makes the prefix one longer.
proof fn lemma_inserted<T>(s: Seq<T>, lt: spec_fn(T, T) -> bool, index: int)
    requires
        strict_weak_order(lt),
        0 <= index < s.len(),
        sorted_by(s.take(index), lt),
    ensures
        sorted_by(inserted(s, lt, index).take(index + 1), lt),
        inserted(s, lt, index).len() == s.len(),
        inserted(s, lt, index).to_multiset() == s.to_multiset(),
        lt(s[index], s[0]) ==> slide(s, lt, s[index], index) == 0,
{
    let value = s[index];
    let at = slide(s, lt, value, index);
    lemma_slide(s, lt, value, index);
    lemma_moved_multiset(s, index, at);
    let t = inserted(s, lt, index);
    let p = s.take(index);
    assert forall|i: int, j: int| 0 <= i < j < index implies !lt(#[trigger] s[j], #[trigger] s[i]) by {
        assert(p[i] == s[i] && p[j] == s[j]);
    }
    assert forall|k: int| 0 <= k < at implies !lt(value, #[trigger] s[k]) by {
        if k < at - 1 {
            assert(!lt(value, s[at - 1]));
            assert(!lt(s[at - 1], s[k]));
        }
    }
    let q = t.take(index + 1);
    assert forall|i: int, j: int|
        #![trigger q[i], q[j]]
        0 <= i < j < q.len() implies !lt(q[j], q[i]) by {
        let a = if i < at { i } else { i - 1 };
        let b = if j < at { j } else { j - 1 };
        if i != at {
            assert(q[i] == s[a]);
        }
        if j != at {
            assert(q[j] == s[b]);
        }
    }
    if at > 0 && lt(value, s[0]) {
        assert(!lt(value, s[0]));
    }
}

/// Sorts the elements before `last`.
pub fn insertion_sort<T: Copy>(
    values: &mut [T],
    last: usize,
    less: impl Fn(T, T) -> bool + Copy,
)
    requires
        is_comparator(less),
        last <= old(values)@.len(),
    ensures
        forall|lt: spec_fn(T, T) -> bool| #[trigger]
            orders(less, lt) ==> final(values)@ == insertion_sorted(
                old(values)@,
                lt,
                1,
                last as int,
            ) && sorted_by(final(values)@.take(last as int), lt),
        final(values)@.to_multiset() == old(values)@.to_multiset(),
        final(values)@.len() == old(values)@.len(),
{
    let ghost some = choose|lt: spec_fn(T, T) -> bool| orders(less, lt);
    let ghost start = values@;
    let mut index: usize = 1;
    while index < last
        invariant
            is_comparator(less),
            orders(less, some),
            last <= values@.len(),
            start.len() == values@.len(),
            1 <= index,
            index <= last || last <= 1,
            values@.to_multiset() == start.to_multiset(),
            forall|lt: spec_fn(T, T) -> bool| #[trigger]
                orders(less, lt) && index <= start.len() ==> sorted_by(
                    values@.take(index as int),
                    lt,
                ),
            index > last ==> index == 1,
            forall|lt: spec_fn(T, T) -> bool| #[trigger]
                orders(less, lt) ==> insertion_sorted(values@, lt, index as int, last as int)
                    == insertion_sorted(start, lt, 1, last as int),
        decreases last - index,
    {
        let ghost before = values@;
        let value = values[index];
        proof {
            lemma_inserted(before, some, index as int);
            assert forall|lt: spec_fn(T, T) -> bool| #[trigger] orders(less, lt) implies sorted_by(
                inserted(before, lt, index as int).take(index + 1),
                lt,
            ) && (lt(before[index as int], before[0]) ==> slide(
                before,
                lt,
                before[index as int],
                index as int,
            ) == 0) by {
                lemma_inserted(before, lt, index as int);
            }
        }
        if is_less(less, value, values[0]) {
            let mut gap: usize = index;
            while gap > 0
                invariant
                    gap <= index < values@.len(),
                    values@.len() == before.len(),
                    forall|k: int|
                        0 <= k < gap || index < k < before.len() ==> values@[k] == before[k],
                    forall|k: int| gap < k <= index ==> #[trigger] values@[k] == before[k - 1],
                decreases gap,
            {
                values[gap] = values[gap - 1];
                gap = gap - 1;
            }
            values[0] = value;
            assert(values@ =~= before.remove(index as int).insert(0, value));
        } else {
            linear_insert(values, index, less);
        }
        index = index + 1;
    }
    proof {
        if last == 0 {
            assert(values@.take(0).len() == 0);
        } else if last == 1 {
            assert(values@.take(1).len() == 1);
        }
    }
}

/// Sorts a sequence, whatever arrangement the quicksort part left.
pub fn final_insertion_sort<T: Copy>(values: &mut [T], less: impl Fn(T, T) -> bool + Copy)
    requires
        is_comparator(less),
    ensures
        forall|lt: spec_fn(T, T) -> bool| #[trigger]
            orders(less, lt) ==> final(values)@ == insertion_sorted(
                old(values)@,
                lt,
                1,
                old(values)@.len() as int,
            ) && sorted_by(final(values)@, lt),
        final(values)@.to_multiset() == old(values)@.to_multiset(),
        final(values)@.len() == old(values)@.len(),
{
    let ghost some = choose|lt: spec_fn(T, T) -> bool| orders(less, lt);
    let ghost start = values@;
    let len: usize = values.len();
    let guarded_end: usize = if len < THRESHOLD {
        len
    } else {
        THRESHOLD
    };
    insertion_sort(values, guarded_end, less);
    proof {
        assert forall|lt: spec_fn(T, T) -> bool| #[trigger] orders(less, lt) implies insertion_sorted(
            values@,
            lt,
            guarded_end as int,
            len as int,
        ) == insertion_sorted(start, lt, 1, len as int) by {
            lemma_insertion_split(start, lt, 1, guarded_end as int, len as int);
        }
    }
    let mut index: usize = guarded_end;
    while index < len
        invariant
            is_comparator(less),
            orders(less, some),
            len == values@.len(),
            start.len() == values@.len(),
            index <= len,
            values@.to_multiset() == start.to_multiset(),
            forall|lt: spec_fn(T, T) -> bool| #[trigger]
                orders(less, lt) ==> sorted_by(values@.take(index as int), lt)
                    && insertion_sorted(values@, lt, index as int, len as int)
                    == insertion_sorted(start, lt, 1, len as int),
        decreases len - index,
    {
        proof {
            lemma_inserted(values@, some, index as int);
            assert forall|lt: spec_fn(T, T) -> bool| #[trigger] orders(less, lt) implies sorted_by(
                inserted(values@, lt, index as int).take(index + 1),
                lt,
            ) by {
                lemma_inserted(values@, lt, index as int);
            }
        }
        linear_insert(values, index, less);
        index = index + 1;
    }
    assert(values@.take(len as int) =~= values@);
}

/// Inserting a range is inserting its two halves, one after the other.
proof fn lemma_insertion_split<T>(
    s: Seq<T>,
    lt: spec_fn(T, T) -> bool,
    from: int,
    middle: int,
    to: int,
)
    requires
        middle <= to,
        from <= middle || middle == to,
    ensures
        insertion_sorted(insertion_sorted(s, lt, from, middle), lt, middle, to)
            == insertion_sorted(s, lt, from, to),
    decreases middle - from,
{
    if from < middle {
        lemma_insertion_split(inserted(s, lt, from), lt, from + 1, middle, to);
    }
}

/// Twice the binary logarithm of a length, rounded down before it is doubled.
fn sort_depth(len: usize) -> (depth: usize)
    ensures
        depth == depth_limit(len as nat),
{
    let mut rest: usize = len;
    let mut depth: usize = 0;
    while rest > 1
        invariant
            depth + depth_limit(rest as nat) == depth_limit(len as nat),
            depth + rest <= len + (if rest <= 1 { 1int } else { 0 }),
        decreases rest,
    {
        rest = rest / 2;
        depth = depth + 2;
    }
    depth
}

/// Sorts the way libstdc++'s `std::sort` does, down to the order in which it leaves
/// elements that `less` does not tell apart.
pub fn glibcxx_sort_by<T: Copy>(values: &mut [T], less: impl Fn(T, T) -> bool + Copy)
    requires
        is_comparator(less),
    ensures
        final(values)@.to_multiset() == old(values)@.to_multiset(),
        forall|lt: spec_fn(T, T) -> bool| #[trigger]
            orders(less, lt) ==> sorted_by(final(values)@, lt) && final(values)@ == sorted_model(
                old(values)@,
                lt,
            ),
{
    let len: usize = values.len();
    if len < 2 {
        return;
    }
    let depth: usize = sort_depth(len);
    introsort_loop(values, 0, len, depth, less);
    final_insertion_sort(values, less);
}

} // verus!
