//! What is known of a list that is gathered step by step: which items it holds, and in which order.
use vstd::prelude::*;

verus! {

/// The values of the first `n` positions that are kept, in order.
pub open spec fn picked<A>(keep: spec_fn(int) -> bool, value: spec_fn(int) -> A, n: int) -> Seq<A>
    decreases n,
{
    if n <= 0 {
        Seq::empty()
    } else if keep(n - 1) {
        picked(keep, value, n - 1).push(value(n - 1))
    } else {
        picked(keep, value, n - 1)
    }
}

/// Each item of such a list is the value of a position that is kept.
pub proof fn lemma_picked_from<A>(
    keep: spec_fn(int) -> bool,
    value: spec_fn(int) -> A,
    n: int,
    j: int,
) -> (i: int)
    requires
        0 <= j < picked(keep, value, n).len(),
    ensures
        0 <= i < n,
        keep(i),
        picked(keep, value, n)[j] == value(i),
    decreases n,
{
    let before = picked(keep, value, n - 1);
    if n > 0 && keep(n - 1) && j == before.len() {
        n - 1
    } else {
        lemma_picked_from(keep, value, n - 1, j)
    }
}

/// The value of each position that is kept is in such a list.
pub proof fn lemma_picked_all<A>(
    keep: spec_fn(int) -> bool,
    value: spec_fn(int) -> A,
    n: int,
    i: int,
) -> (j: int)
    requires
        0 <= i < n,
        keep(i),
    ensures
        0 <= j < picked(keep, value, n).len(),
        picked(keep, value, n)[j] == value(i),
    decreases n,
{
    if i == n - 1 {
        picked(keep, value, n - 1).len() as int
    } else {
        lemma_picked_all(keep, value, n - 1, i)
    }
}

/// A value is in such a list exactly where a position that is kept has it.
pub proof fn lemma_picked_contains<A>(
    keep: spec_fn(int) -> bool,
    value: spec_fn(int) -> A,
    n: int,
    item: A,
)
    ensures
        picked(keep, value, n).contains(item) <==> exists|i: int|
            0 <= i < n && #[trigger] keep(i) && value(i) == item,
{
    let list = picked(keep, value, n);
    if list.contains(item) {
        let j = choose|j: int| 0 <= j < list.len() && list[j] == item;
        let i = lemma_picked_from(keep, value, n, j);
        assert(keep(i) && value(i) == item);
    }
    if exists|i: int| 0 <= i < n && #[trigger] keep(i) && value(i) == item {
        let i = choose|i: int| 0 <= i < n && #[trigger] keep(i) && value(i) == item;
        let j = lemma_picked_all(keep, value, n, i);
        assert(list[j] == item);
    }
}

} // verus!
