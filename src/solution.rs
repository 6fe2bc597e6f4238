use vstd::prelude::*;

use crate::race::SolutionFuture;
use crate::retry::Retryer;

verus! {

/// Extra attempts each source gets after a failed first one.
pub const RETRY_COUNT: usize = 3;

/// Races a collection of sources, each under the same retry policy, and answers
/// with the value of the first that succeeds, or nothing.
pub struct Solution0;

impl Solution0 {
    /// The retry policy each source runs under.
    pub fn retryer() -> (r: Retryer)
        ensures
            r.0 == RETRY_COUNT,
    {
        Retryer::new(RETRY_COUNT)
    }

    /// The race over `count` sources; none for an empty collection, which is
    /// answered with nothing and starts no operation.
    pub fn start<T, E>(count: usize) -> (r: Option<SolutionFuture<T, E>>)
        ensures
            r is None <==> count == 0,
            r matches Some(race) ==> race.wf() && race.results() == Seq::new(
                count as nat,
                |i: int| None::<Result<T, E>>,
            ) && !race.is_awaiting() && !race.is_finished(),
    {
        if count == 0 {
            None
        } else {
            Some(SolutionFuture::new(count))
        }
    }

    /// The answer for a race that resolved to `outcome`: its value on success, and
    /// nothing on failure, whose error is discarded.
    pub fn answer<T, E>(outcome: Result<T, E>) -> (r: Option<T>)
        ensures
            outcome matches Ok(v) ==> r == Some(v),
            outcome is Err ==> r is None,
    {
        match outcome {
            Ok(v) => Some(v),
            Err(_) => None,
        }
    }
}

} // verus!
