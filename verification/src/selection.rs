//! Picking the greatest of a list of scores.

use vstd::prelude::*;

verus! {

/// `at` is the place of the greatest score, the last such place where the
/// greatest score stands at several.
pub open spec fn is_last_maximum(scores: Seq<i64>, at: int) -> bool {
    &&& 0 <= at < scores.len()
    &&& forall|j: int| 0 <= j < scores.len() ==> #[trigger] scores[j] <= scores[at]
    &&& forall|j: int| at < j < scores.len() ==> #[trigger] scores[j] < scores[at]
}

/// The place of the greatest of the scores, the last one among equals;
/// `None` where there is no score.
pub fn last_maximum(scores: &Vec<i64>) -> (best: Option<usize>)
    ensures
        scores@.len() == 0 <==> best is None,
        best matches Some(at) ==> is_last_maximum(scores@, at as int),
{
    if scores.len() == 0 {
        return None;
    }
    let mut at: usize = 0;
    let mut i: usize = 1;
    while i < scores.len()
        invariant
            1 <= i <= scores@.len(),
            at < i,
            forall|j: int| 0 <= j < i ==> #[trigger] scores@[j] <= scores@[at as int],
            forall|j: int| at < j < i ==> #[trigger] scores@[j] < scores@[at as int],
        decreases scores@.len() - i,
    {
        if scores[i] >= scores[at] {
            at = i;
        }
        i = i + 1;
    }
    Some(at)
}

/// `at` is the place of the greatest value, the first such place where the
/// greatest value stands at several.
pub open spec fn is_first_maximum(values: Seq<int>, at: int) -> bool {
    &&& 0 <= at < values.len()
    &&& forall|j: int| 0 <= j < values.len() ==> #[trigger] values[j] <= values[at]
    &&& forall|j: int| 0 <= j < at ==> #[trigger] values[j] < values[at]
}

} // verus!
