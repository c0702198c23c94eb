//! Sequences of executable values seen through their views.

use vstd::prelude::*;

verus! {

/// Each element's view, in order.
pub open spec fn views<T: View>(s: Seq<T>) -> Seq<T::V> {
    s.map_values(|x: T| x@)
}

pub broadcast proof fn lemma_views<T: View>(s: Seq<T>)
    ensures
        #[trigger] views(s).len() == s.len(),
        forall|i: int| 0 <= i < s.len() ==> #[trigger] views(s)[i] == s[i]@,
{
}

} // verus!
