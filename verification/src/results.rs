//! Results and their views.

use vstd::prelude::*;

verus! {

/// The view of a result: that of its value, or that of its error.
pub open spec fn result_view<T: DeepView, E: DeepView>(result: Result<T, E>) -> Result<T::V, E::V> {
    match result {
        Ok(value) => Ok(value.deep_view()),
        Err(error) => Err(error.deep_view()),
    }
}

/// The values of a list of results, or the first error among them.
pub open spec fn collected<T, E>(results: Seq<Result<T, E>>) -> Result<Seq<T>, E>
    decreases results.len(),
{
    if results.len() == 0 {
        Ok(Seq::empty())
    } else {
        match collected(results.drop_last()) {
            Err(error) => Err(error),
            Ok(values) => match results.last() {
                Ok(value) => Ok(values.push(value)),
                Err(error) => Err(error),
            },
        }
    }
}

/// An error among the first `count` results is the error of the whole list.
pub proof fn lemma_collected_error<T, E>(results: Seq<Result<T, E>>, count: int)
    requires
        0 <= count <= results.len(),
        collected(results.take(count)) is Err,
    ensures
        collected(results) == collected(results.take(count)),
    decreases results.len() - count,
{
    if count < results.len() {
        assert(results.take(count + 1).drop_last() =~= results.take(count));
        lemma_collected_error(results, count + 1);
    } else {
        assert(results.take(count) =~= results);
    }
}

} // verus!
