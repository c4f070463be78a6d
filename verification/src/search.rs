//! Finding the first item of a sequence that meets a condition.

use vstd::prelude::*;

verus! {

/// `at` is where the first item of `items` stands that meets `wanted`.
pub open spec fn is_first<T>(items: Seq<T>, wanted: spec_fn(T) -> bool, at: int) -> bool {
    &&& 0 <= at < items.len()
    &&& wanted(items[at])
    &&& forall|j: int| 0 <= j < at ==> !wanted(#[trigger] items[j])
}

/// Where the first item of `items` stands that meets `wanted`; `None` where
/// no item meets it.
pub open spec fn first_match<T>(items: Seq<T>, wanted: spec_fn(T) -> bool) -> Option<int> {
    if exists|at: int| is_first(items, wanted, at) {
        Some(choose|at: int| is_first(items, wanted, at))
    } else {
        None
    }
}

/// The first item that meets a condition stands in one place only.
pub proof fn lemma_first_match<T>(items: Seq<T>, wanted: spec_fn(T) -> bool, at: int)
    requires
        is_first(items, wanted, at),
    ensures
        first_match(items, wanted) == Some(at),
{
    let found = choose|i: int| is_first(items, wanted, i);
    if found < at {
        assert(!wanted(items[found]));
    } else if at < found {
        assert(!wanted(items[at]));
    }
}

/// Where no item meets the condition, there is no first one.
pub proof fn lemma_no_match<T>(items: Seq<T>, wanted: spec_fn(T) -> bool)
    requires
        forall|j: int| 0 <= j < items.len() ==> !wanted(#[trigger] items[j]),
    ensures
        first_match(items, wanted) is None,
{
    assert forall|at: int| !is_first(items, wanted, at) by {
        if is_first(items, wanted, at) {
            assert(!wanted(items[at]));
        }
    }
}

} // verus!
