//! Stable orders: what comes before what, and what keeps its place.

use crate::stl_sort::is_comparator;
use vstd::prelude::*;

verus! {

/// `order` holds each of the numbers below `n` once: a number comes before those that it
/// precedes, and before the larger ones that `lt` does not tell it apart from.
pub open spec fn is_stable_order(
    order: Seq<usize>,
    n: nat,
    lt: spec_fn(usize, usize) -> bool,
) -> bool {
    &&& order.len() == n
    &&& forall|i: int| 0 <= i < n ==> #[trigger] order[i] < n
    &&& forall|i: int, j: int|
        #![trigger order[i], order[j]]
        0 <= i < j < n ==> lt(order[i], order[j]) || (!lt(order[j], order[i]) && order[i]
            < order[j])
}

proof fn lemma_placed(
    before: Seq<usize>,
    n: usize,
    at: int,
    lt: spec_fn(usize, usize) -> bool,
)
    requires
        crate::stl_sort::strict_weak_order(lt),
        is_stable_order(before, n as nat, lt),
        0 <= at <= n,
        n < usize::MAX,
        forall|k: int| at <= k < n ==> lt(n, #[trigger] before[k]),
        at > 0 ==> !lt(n, before[at - 1]),
    ensures
        is_stable_order(before.insert(at, n), (n + 1) as nat, lt),
{
    let after = before.insert(at, n);
    assert forall|i: int| 0 <= i < n + 1 implies #[trigger] after[i] < n + 1 by {
        if i < at {
            assert(after[i] == before[i]);
        } else if i > at {
            assert(after[i] == before[i - 1]);
        }
    }
    assert forall|i: int, j: int|
        #![trigger after[i], after[j]]
        0 <= i < j < n + 1 implies lt(after[i], after[j]) || (!lt(after[j], after[i]) && after[i]
        < after[j]) by {
        let a = if i < at {
            i
        } else {
            i - 1
        };
        let b = if j < at {
            j
        } else {
            j - 1
        };
        if i != at {
            assert(after[i] == before[a]);
        }
        if j != at {
            assert(after[j] == before[b]);
        }
        if j == at && i < at - 1 {
            assert(lt(before[i], before[at - 1]) || !lt(before[at - 1], before[i]));
        }
    }
}

/// The numbers below `n` in the order of `less`; those that it does not tell apart keep the
/// order of their size.
pub fn stable_order_by(n: usize, less: impl Fn(usize, usize) -> bool + Copy) -> (r: Vec<usize>)
    requires
        is_comparator(less),
    ensures
        forall|lt: spec_fn(usize, usize) -> bool| #[trigger]
            crate::stl_sort::orders(less, lt) ==> is_stable_order(r@, n as nat, lt),
        forall|i: int| 0 <= i < r@.len() ==> #[trigger] r@[i] < n,
        r@.len() == n,
{
    let ghost some = choose|lt: spec_fn(usize, usize) -> bool| crate::stl_sort::orders(less, lt);
    let mut r: Vec<usize> = Vec::new();
    let mut i: usize = 0;
    while i < n
        invariant
            i <= n,
            is_comparator(less),
            crate::stl_sort::orders(less, some),
            r@.len() == i,
            forall|lt: spec_fn(usize, usize) -> bool| #[trigger]
                crate::stl_sort::orders(less, lt) ==> is_stable_order(r@, i as nat, lt),
        decreases n - i,
    {
        let mut at: usize = i;
        while at > 0 && less(i, r[at - 1])
            invariant
                at <= i,
                r@.len() == i,
                is_comparator(less),
                forall|lt: spec_fn(usize, usize) -> bool| #[trigger]
                    crate::stl_sort::orders(less, lt) ==> forall|k: int|
                        at <= k < i ==> lt(i, #[trigger] r@[k]),
            ensures
                forall|lt: spec_fn(usize, usize) -> bool| #[trigger]
                    crate::stl_sort::orders(less, lt) ==> (at > 0 ==> !lt(i, r@[at - 1])),
            decreases at,
        {
            at = at - 1;
        }
        let ghost before = r@;
        r.insert(at, i);
        proof {
            assert forall|lt: spec_fn(usize, usize) -> bool| #[trigger]
                crate::stl_sort::orders(less, lt) implies is_stable_order(
                r@,
                (i + 1) as nat,
                lt,
            ) by {
                lemma_placed(before, i, at as int, lt);
            }
        }
        i = i + 1;
    }
    assert(is_stable_order(r@, n as nat, some));
    r
}

/// What precedes by a number for each.
pub open spec fn by_key(keys: Seq<u64>) -> spec_fn(usize, usize) -> bool {
    |a: usize, b: usize| keys[a as int] < keys[b as int]
}

/// The places of `keys` in ascending order of what stands there; equal ones keep their order.
pub fn stable_order(keys: &Vec<u64>) -> (r: Vec<usize>)
    ensures
        is_stable_order(r@, keys@.len(), by_key(keys@)),
        r@ == stable_places(keys@),
{
    let n: usize = keys.len();
    let less = |a: usize, b: usize| -> (r: bool)
        ensures
            r == (b < n && (a >= n || keys@[a as int] < keys@[b as int])),
        {
            if a < n && b < n {
                keys[a] < keys[b]
            } else {
                b < n
            }
        };
    let ghost lt = |a: usize, b: usize|
        b < n && (a >= n || keys@[a as int] < keys@[b as int]);
    assert(crate::stl_sort::orders(less, lt));
    let r = stable_order_by(n, less);
    proof {
        assert(is_stable_order(r@, n as nat, lt));
        assert forall|i: int, j: int|
            #![trigger r@[i], r@[j]]
            0 <= i < j < n implies by_key(keys@)(r@[i], r@[j]) || (!by_key(keys@)(r@[j], r@[i])
            && r@[i] < r@[j]) by {
            assert(lt(r@[i], r@[j]) || (!lt(r@[j], r@[i]) && r@[i] < r@[j]));
        }
        assert(crate::stl_sort::strict_weak_order(by_key(keys@)));
        stable_order_is_known(r@, n as nat, by_key(keys@));
    }
    r
}

/// Only one list is the stable order.
pub proof fn stable_order_is_unique(
    a: Seq<usize>,
    b: Seq<usize>,
    n: nat,
    lt: spec_fn(usize, usize) -> bool,
)
    requires
        crate::stl_sort::strict_weak_order(lt),
        is_stable_order(a, n, lt),
        is_stable_order(b, n, lt),
    ensures
        a == b,
{
    lemma_all_there(a, n, lt);
    lemma_all_there(b, n, lt);
    lemma_same_upto(a, b, n, lt, n);
    assert(a =~= b);
}

proof fn lemma_same_upto(
    a: Seq<usize>,
    b: Seq<usize>,
    n: nat,
    lt: spec_fn(usize, usize) -> bool,
    m: nat,
)
    requires
        crate::stl_sort::strict_weak_order(lt),
        is_stable_order(a, n, lt),
        is_stable_order(b, n, lt),
        forall|x: usize| x < n ==> #[trigger] a.contains(x),
        forall|x: usize| x < n ==> #[trigger] b.contains(x),
        m <= n,
    ensures
        forall|i: int| 0 <= i < m ==> #[trigger] a[i] == b[i],
    decreases m,
{
    if m > 0 {
        let k = m - 1;
        lemma_same_upto(a, b, n, lt, k as nat);
        let x = a[k];
        let y = b[k];
        if x != y {
            assert(b.contains(x) && a.contains(y));
            let p = choose|p: int| 0 <= p < n && b[p] == x;
            let q = choose|q: int| 0 <= q < n && a[q] == y;
            if p < k {
                assert(a[p] == x);
                assert(false);
            }
            if q < k {
                assert(b[q] == y);
                assert(false);
            }
            assert(p > k && q > k);
            assert(lt(a[k], a[q]) || (!lt(a[q], a[k]) && a[k] < a[q]));
            assert(lt(b[k], b[p]) || (!lt(b[p], b[k]) && b[k] < b[p]));
            assert(false);
        }
    }
}

proof fn lemma_all_there(a: Seq<usize>, n: nat, lt: spec_fn(usize, usize) -> bool)
    requires
        crate::stl_sort::strict_weak_order(lt),
        is_stable_order(a, n, lt),
    ensures
        forall|x: usize| x < n ==> #[trigger] a.contains(x),
{
    let s = a.map_values(|x: usize| x as int);
    let all = Set::<int>::range(0, n as int);
    assert(s.no_duplicates()) by {
        assert forall|i: int, j: int| 0 <= i < n && 0 <= j < n && i != j implies s[i] != s[j] by {
            let (x, y) = if i < j {
                (i, j)
            } else {
                (j, i)
            };
            assert(lt(a[x], a[y]) || (!lt(a[y], a[x]) && a[x] < a[y]));
        }
    }
    s.unique_seq_to_set();
    vstd::set_lib::range_set_properties::<int>(0, n as int);
    assert(s.to_set().subset_of(all)) by {
        assert forall|x: int| s.to_set().contains(x) implies all.contains(x) by {
            let i = choose|i: int| 0 <= i < s.len() && s[i] == x;
            assert(a[i] < n);
        }
    }
    vstd::set_lib::lemma_subset_equality(s.to_set(), all);
    assert forall|x: usize| x < n implies #[trigger] a.contains(x) by {
        assert(all.contains(x as int));
        assert(s.to_set().contains(x as int));
        let i = choose|i: int| 0 <= i < s.len() && s[i] == x as int;
        assert(a[i] == x);
    }
}

/// The stable order.
pub open spec fn stable_by(n: nat, lt: spec_fn(usize, usize) -> bool) -> Seq<usize> {
    choose|order: Seq<usize>| is_stable_order(order, n, lt)
}

/// A list that is a stable order is the stable order.
pub proof fn stable_order_is_known(
    order: Seq<usize>,
    n: nat,
    lt: spec_fn(usize, usize) -> bool,
)
    requires
        crate::stl_sort::strict_weak_order(lt),
        is_stable_order(order, n, lt),
    ensures
        order == stable_by(n, lt),
{
    stable_order_is_unique(order, stable_by(n, lt), n, lt);
}

/// The places of `keys` in ascending order of what stands there.
pub open spec fn stable_places(keys: Seq<u64>) -> Seq<usize> {
    stable_by(keys.len(), by_key(keys))
}

proof fn lemma_cut(order: Seq<usize>, x: usize, lt: spec_fn(usize, usize) -> bool, n: nat) -> (p: int)
    requires
        n <= order.len(),
    ensures
        0 <= p <= n,
        forall|i: int| p <= i < n ==> lt(x, #[trigger] order[i]),
        p > 0 ==> !lt(x, order[p - 1]),
    decreases n,
{
    if n > 0 && lt(x, order[n - 1]) {
        lemma_cut(order, x, lt, (n - 1) as nat)
    } else {
        n as int
    }
}

/// There is a stable order of the numbers below `n`.
pub proof fn stable_order_exists(n: nat, lt: spec_fn(usize, usize) -> bool) -> (order: Seq<usize>)
    requires
        crate::stl_sort::strict_weak_order(lt),
        n <= usize::MAX,
    ensures
        is_stable_order(order, n, lt),
    decreases n,
{
    if n == 0 {
        Seq::empty()
    } else {
        let before = stable_order_exists((n - 1) as nat, lt);
        let x = (n - 1) as usize;
        let p = lemma_cut(before, x, lt, before.len());
        let order = before.insert(p, x);
        assert forall|i: int| 0 <= i < n implies #[trigger] order[i] < n by {
            if i < p {
                assert(order[i] == before[i]);
            } else if i > p {
                assert(order[i] == before[i - 1]);
            }
        }
        assert forall|i: int, j: int|
            #![trigger order[i], order[j]]
            0 <= i < j < n implies lt(order[i], order[j]) || (!lt(order[j], order[i]) && order[i]
            < order[j]) by {
            let a = if i < p {
                i
            } else {
                i - 1
            };
            let b = if j < p {
                j
            } else {
                j - 1
            };
            if i != p {
                assert(order[i] == before[a]);
            }
            if j != p {
                assert(order[j] == before[b]);
            }
            if i == p {
                assert(lt(x, before[b]));
            } else if j == p {
                assert(before[a] < n - 1);
                let last = before[p - 1];
                assert(!lt(x, last));
                if a < p - 1 {
                    assert(lt(before[a], before[p - 1]) || (!lt(before[p - 1], before[a])
                        && before[a] < before[p - 1]));
                    assert(!lt(last, before[a]));
                }
                assert(!lt(x, before[a]));
            } else {
                assert(lt(before[a], before[b]) || (!lt(before[b], before[a]) && before[a]
                    < before[b]));
            }
        }
        order
    }
}

/// The stable order is one, and leaves out no number.
pub proof fn stable_order_leaves_out_nothing(n: nat, lt: spec_fn(usize, usize) -> bool)
    requires
        crate::stl_sort::strict_weak_order(lt),
        n <= usize::MAX,
    ensures
        is_stable_order(stable_by(n, lt), n, lt),
        forall|x: usize| x < n ==> #[trigger] stable_by(n, lt).contains(x),
{
    let order = stable_order_exists(n, lt);
    stable_order_is_known(order, n, lt);
    lemma_all_there(order, n, lt);
}

} // verus!
