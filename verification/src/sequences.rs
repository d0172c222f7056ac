//! What sequences hold that are put together from others.

use vstd::prelude::*;

verus! {

/// Two sequences one after the other hold what either of them holds.
pub proof fn either_holds<T>(a: Seq<T>, b: Seq<T>, x: T)
    ensures
        (a + b).contains(x) <==> a.contains(x) || b.contains(x),
{
    let all = a + b;
    if a.contains(x) {
        let i = choose|i: int| 0 <= i < a.len() && a[i] == x;
        assert(all[i] == x);
    }
    if b.contains(x) {
        let i = choose|i: int| 0 <= i < b.len() && b[i] == x;
        assert(all[a.len() + i] == x);
    }
    if all.contains(x) {
        let i = choose|i: int| 0 <= i < all.len() && all[i] == x;
        if i < a.len() {
            assert(a[i] == x);
        } else {
            assert(b[i - a.len()] == x);
        }
    }
}

/// A sequence with one more value holds that value and what it held before.
pub proof fn pushed_holds<T>(a: Seq<T>, y: T, x: T)
    ensures
        a.push(y).contains(x) <==> a.contains(x) || x == y,
{
    assert(a.push(y) =~= a + seq![y]);
    either_holds(a, seq![y], x);
    assert(seq![y][0] == y);
}

/// A sequence with a value put in holds that value and what it held before.
pub proof fn inserted_holds<T>(a: Seq<T>, i: int, y: T, x: T)
    requires
        0 <= i <= a.len(),
    ensures
        a.insert(i, y).contains(x) <==> a.contains(x) || x == y,
{
    assert(a.insert(i, y) =~= a.take(i).push(y) + a.skip(i));
    either_holds(a.take(i).push(y), a.skip(i), x);
    pushed_holds(a.take(i), y, x);
    assert(a =~= a.take(i) + a.skip(i));
    either_holds(a.take(i), a.skip(i), x);
}

} // verus!
