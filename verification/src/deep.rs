//! Facts on the deep views of vectors.

use vstd::prelude::*;

verus! {

/// Appending an item to a vector appends the item's value to the vector's
/// value.
pub proof fn lemma_push_deep<T: DeepView>(before: Vec<T>, after: Vec<T>, item: T)
    requires
        after@ == before@.push(item),
    ensures
        after.deep_view() == before.deep_view().push(item.deep_view()),
{
    assert(after.deep_view() =~= before.deep_view().push(item.deep_view()));
}

/// A vector without items has the empty sequence as its value.
pub proof fn lemma_empty_deep<T: DeepView>(v: Vec<T>)
    requires
        v@.len() == 0,
    ensures
        v.deep_view() == Seq::<T::V>::empty(),
{
    assert(v.deep_view() =~= Seq::<T::V>::empty());
}

} // verus!
