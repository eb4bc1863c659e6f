//! Lists whose items are taken out one by one.

use vstd::prelude::*;

verus! {

/// A list from back to front.
pub(crate) fn reversed<T>(list: Vec<T>) -> (out: Vec<T>)
    ensures
        out@.len() == list@.len(),
        forall|j: int| 0 <= j < out@.len() ==> (#[trigger] out@[j]) == list@[list@.len() - 1 - j],
{
    let ghost all = list@;
    let mut rest = list;
    let mut out: Vec<T> = Vec::new();
    while rest.len() > 0
        invariant
            rest@.len() + out@.len() == all.len(),
            rest@ == all.take(rest@.len() as int),
            forall|j: int|
                0 <= j < out@.len() ==> (#[trigger] out@[j]) == all[all.len() - 1 - j],
        decreases rest.len(),
    {
        let item = rest.pop().unwrap();
        out.push(item);
    }
    out
}

/// Places in a list of `n` items, in ascending order and none twice.
pub open spec fn places(at: Seq<int>, n: int) -> bool {
    &&& forall|i: int| 0 <= i < at.len() ==> 0 <= #[trigger] at[i] < n
    &&& forall|i: int, j: int| 0 <= i < j < at.len() ==> #[trigger] at[i] < #[trigger] at[j]
}

/// Places in a list are places in a longer one, and so they are with the one behind the list added.
pub(crate) proof fn lemma_places_grow(at: Seq<int>, n: int)
    requires
        places(at, n),
        n >= 0,
    ensures
        places(at, n + 1),
        places(at.push(n), n + 1),
{
    let more = at.push(n);
    assert forall|i: int, j: int| 0 <= i < j < more.len() implies #[trigger] more[i]
        < #[trigger] more[j] by {
        assert(more[i] == at[i]);
        if j < at.len() {
            assert(more[j] == at[j]);
        }
    }
}

} // verus!
