//! Putting things in order without moving them: a stable sort that returns
//! positions.

use vstd::prelude::*;

verus! {

/// Does position `a` come before position `b` in the order that `first`
/// gives?  It does if `first` puts it first, or if `first` puts neither
/// first and `a` is the smaller position.
pub open spec fn comes_first(first: spec_fn(int, int) -> bool, a: int, b: int) -> bool {
    first(a, b) || (!first(b, a) && a < b)
}

/// Is `first` an order: does it put at most one of two things first, and
/// does what it puts before a thing come before everything that the thing
/// is not put behind?
pub open spec fn is_ordering(first: spec_fn(int, int) -> bool, n: int) -> bool {
    &&& forall|a: int, b: int|
        0 <= a < n && 0 <= b < n ==> !(#[trigger] first(a, b) && first(b, a))
    &&& forall|s: int, x: int, y: int|
        0 <= s < n && 0 <= x < n && 0 <= y < n && #[trigger] first(s, x) && !#[trigger] first(y, x)
            ==> first(s, y)
}

/// Does `order` list the position `i`?
pub open spec fn lists(order: Seq<usize>, i: int) -> bool {
    exists|k: int| 0 <= k < order.len() && order[k] == i
}

/// `order` lists the positions below `n`, each once, in the order that
/// `first` gives, equals in the order of their positions.
pub open spec fn is_stable_order(first: spec_fn(int, int) -> bool, n: int, order: Seq<usize>) -> bool {
    &&& order.len() == n
    &&& forall|k: int| 0 <= k < order.len() ==> (#[trigger] order[k]) < n
    &&& forall|a: int, b: int|
        0 <= a < b < order.len() ==> comes_first(
            first,
            #[trigger] order[a] as int,
            #[trigger] order[b] as int,
        )
    &&& forall|i: int| 0 <= i < n ==> #[trigger] lists(order, i)
}

/// The positions below `n` in the order that `goes_first` gives.  Things
/// that stand equal keep the order of their positions.
pub(crate) fn stable_order<F: Fn(usize, usize) -> bool>(
    n: usize,
    goes_first: F,
    Ghost(first): Ghost<spec_fn(int, int) -> bool>,
) -> (order: Vec<usize>)
    requires
        is_ordering(first, n as int),
        forall|a: usize, b: usize| a < n && b < n ==> call_requires(goes_first, (a, b)),
        forall|a: usize, b: usize, r: bool|
            a < n && b < n && call_ensures(goes_first, (a, b), r) ==> r == first(a as int, b as int),
    ensures
        is_stable_order(first, n as int, order@),
{
    let mut order: Vec<usize> = Vec::new();
    let mut i: usize = 0;
    while i < n
        invariant
            0 <= i <= n,
            is_ordering(first, n as int),
            forall|a: usize, b: usize| a < n && b < n ==> call_requires(goes_first, (a, b)),
            forall|a: usize, b: usize, r: bool|
                a < n && b < n && call_ensures(goes_first, (a, b), r) ==> r == first(
                    a as int,
                    b as int,
                ),
            order.len() == i,
            forall|k: int| 0 <= k < order.len() ==> (#[trigger] order[k]) < i,
            forall|a: int, b: int|
                0 <= a < b < order.len() ==> comes_first(
                    first,
                    #[trigger] order[a] as int,
                    #[trigger] order[b] as int,
                ),
            forall|j: int| 0 <= j < i ==> #[trigger] lists(order@, j),
        decreases n - i,
    {
        let mut p: usize = order.len();
        let mut found: bool = false;
        while p > 0 && !found
            invariant
                0 <= p <= order.len(),
                i < n,
                order.len() == i,
                forall|a: usize, b: usize| a < n && b < n ==> call_requires(goes_first, (a, b)),
                forall|a: usize, b: usize, r: bool|
                    a < n && b < n && call_ensures(goes_first, (a, b), r) ==> r == first(
                        a as int,
                        b as int,
                    ),
                forall|k: int| 0 <= k < order.len() ==> (#[trigger] order[k]) < i,
                forall|b: int| p <= b < order.len() ==> first(i as int, (#[trigger] order[b]) as int),
                found ==> p > 0 && !first(i as int, order[p - 1] as int),
            decreases (if found { 0int } else { 1int }), p,
        {
            if goes_first(i, order[p - 1]) {
                p -= 1;
            } else {
                found = true;
            }
        }
        proof {
            assert forall|a: int| 0 <= a < p implies !first(i as int, (#[trigger] order[a]) as int) by {
                if a < p - 1 && first(i as int, order[a] as int) {
                    assert(comes_first(first, order[a] as int, order[p - 1] as int));
                    assert(!first(order[p - 1] as int, order[a] as int));
                    assert(first(i as int, order[p - 1] as int));
                }
            }
        }
        let ghost before = order@;
        order.insert(p, i);
        proof {
            assert forall|a: int, b: int| 0 <= a < b < order.len() implies comes_first(
                first,
                #[trigger] order[a] as int,
                #[trigger] order[b] as int,
            ) by {
                if b < p {
                    assert(order[a] == before[a] && order[b] == before[b]);
                } else if b == p {
                    assert(order[a] == before[a]);
                } else if a < p {
                    assert(order[a] == before[a] && order[b] == before[b - 1]);
                } else if a == p {
                    assert(order[b] == before[b - 1]);
                } else {
                    assert(order[a] == before[a - 1] && order[b] == before[b - 1]);
                }
            }
            assert forall|j: int| 0 <= j < i + 1 implies #[trigger] lists(order@, j) by {
                if j < i {
                    assert(lists(before, j));
                    let k = choose|k: int| 0 <= k < before.len() && before[k] == j;
                    if k < p {
                        assert(order[k] == j);
                    } else {
                        assert(order[k + 1] == j);
                    }
                } else {
                    assert(order[p as int] == j);
                }
            }
            assert forall|k: int| 0 <= k < order.len() implies (#[trigger] order[k]) < i + 1 by {
                if k < p {
                    assert(order[k] == before[k]);
                } else if k > p {
                    assert(order[k] == before[k - 1]);
                }
            }
        }
        i += 1;
    }
    order
}

} // verus!
