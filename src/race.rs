use vstd::prelude::*;

verus! {

/// What the driver of a race does next.
pub enum RaceStep<T, E> {
    /// Advance the operation at this index once and report what it gave.
    Poll(usize),
    /// The race is over with this outcome.
    Ready(Result<T, E>),
    /// The pass is over with nothing decided: wait until an operation signals progress.
    Pending,
}

/// Bookkeeping of one race over a fixed, non-empty, ordered collection of operations.
///
/// The operations themselves are held by the driver. Each activation is one pass that
/// advances every operation not yet settled, in order; the first success ends the race,
/// failures are tolerated, and the race fails only when every operation has failed.
pub struct SolutionFuture<T, E> {
    is_ready_future: Vec<bool>,
    pending_count: usize,
    cursor: usize,
    awaiting: bool,
    finished: bool,
    results: Ghost<Seq<Option<Result<T, E>>>>,
}

/// Number of operations that have not settled.
pub open spec fn open_count<T, E>(results: Seq<Option<Result<T, E>>>) -> nat
    decreases results.len(),
{
    if results.len() == 0 {
        0
    } else {
        open_count(results.drop_last()) + if results.last() is None {
            1nat
        } else {
            0nat
        }
    }
}

/// Index of the first operation at or after `from` that has not settled, or the
/// number of operations when there is none.
pub open spec fn first_open_from<T, E>(results: Seq<Option<Result<T, E>>>, from: nat) -> nat
    decreases results.len() - from,
{
    if from >= results.len() {
        results.len()
    } else if results[from as int] is None {
        from
    } else {
        first_open_from(results, from + 1)
    }
}

/// The settled results after the operation at `i` was advanced and gave `polled`
/// (`None`: not finished yet).
pub open spec fn record<T, E>(
    results: Seq<Option<Result<T, E>>>,
    i: int,
    polled: Option<Result<T, E>>,
) -> Seq<Option<Result<T, E>>> {
    if polled is Some {
        results.update(i, polled)
    } else {
        results
    }
}

/// `out` may end a race whose operations settled as `results`: a success that one of
/// them produced, or, once every one of them has failed, one of their failures.
pub open spec fn resolves_to<T, E>(results: Seq<Option<Result<T, E>>>, out: Result<T, E>) -> bool {
    &&& exists|i: int| 0 <= i < results.len() && results[i] == Some(out)
    &&& out is Err ==> forall|i: int|
        0 <= i < results.len() ==> #[trigger] results[i] is Some && results[i]->0 is Err
}

proof fn lemma_open_count_settle<T, E>(
    results: Seq<Option<Result<T, E>>>,
    i: int,
    r: Option<Result<T, E>>,
)
    requires
        0 <= i < results.len(),
        results[i] is None,
        r is Some,
    ensures
        open_count(results.update(i, r)) + 1 == open_count(results),
    decreases results.len(),
{
    let u = results.update(i, r);
    if i == results.len() - 1 {
        assert(u.drop_last() =~= results.drop_last());
    } else {
        assert(u.drop_last() =~= results.drop_last().update(i, r));
        lemma_open_count_settle(results.drop_last(), i, r);
    }
}

proof fn lemma_open_count_zero<T, E>(results: Seq<Option<Result<T, E>>>)
    requires
        open_count(results) == 0,
    ensures
        forall|i: int| 0 <= i < results.len() ==> #[trigger] results[i] is Some,
    decreases results.len(),
{
    if results.len() > 0 {
        lemma_open_count_zero(results.drop_last());
        assert forall|i: int| 0 <= i < results.len() implies #[trigger] results[i] is Some by {
            if i < results.len() - 1 {
                assert(results[i] == results.drop_last()[i]);
            }
        }
    }
}

proof fn lemma_open_count_all_open<T, E>(results: Seq<Option<Result<T, E>>>)
    requires
        forall|i: int| 0 <= i < results.len() ==> #[trigger] results[i] is None,
    ensures
        open_count(results) == results.len(),
    decreases results.len(),
{
    if results.len() > 0 {
        lemma_open_count_all_open(results.drop_last());
    }
}

proof fn lemma_first_open_bounds<T, E>(results: Seq<Option<Result<T, E>>>, from: nat)
    ensures
        first_open_from(results, from) >= from || first_open_from(results, from)
            == results.len(),
        first_open_from(results, from) <= results.len(),
        first_open_from(results, from) < results.len() ==> results[first_open_from(
            results,
            from,
        ) as int] is None,
    decreases results.len() - from,
{
    if from < results.len() && results[from as int] is Some {
        lemma_first_open_bounds(results, from + 1);
    }
}

impl<T, E> SolutionFuture<T, E> {
    /// The result each operation settled with, in order; `None` while it is pending.
    pub closed spec fn results(&self) -> Seq<Option<Result<T, E>>> {
        self.results@
    }

    /// Index of the operation whose report the race awaits.
    pub closed spec fn cursor(&self) -> nat {
        self.cursor as nat
    }

    /// Whether a pass is under way and awaits the report on the operation at `cursor`.
    pub closed spec fn is_awaiting(&self) -> bool {
        self.awaiting
    }

    /// Whether the race has produced its outcome.
    pub closed spec fn is_finished(&self) -> bool {
        self.finished
    }

    /// The flags mirror the settled results, the pending count is the number of
    /// operations not settled, a race not over has one pending and no success, and
    /// the awaited operation is pending.
    pub closed spec fn wf(&self) -> bool {
        &&& self.is_ready_future@.len() == self.results@.len()
        &&& self.results@.len() > 0
        &&& forall|i: int|
            0 <= i < self.results@.len() ==> self.is_ready_future@[i] == (
            #[trigger] self.results@[i] is Some)
        &&& self.pending_count == open_count(self.results@)
        &&& self.finished ==> !self.awaiting
        &&& !self.finished ==> self.pending_count > 0
        &&& self.awaiting ==> self.cursor < self.results@.len() && self.results@[self.cursor as int] is None
        &&& !self.finished ==> forall|i: int|
            0 <= i < self.results@.len() && #[trigger] self.results@[i] is Some
                ==> self.results@[i]->0 is Err
    }

    /// A race over `count` operations, none of them settled.
    pub fn new(count: usize) -> (r: Self)
        requires
            count > 0,
        ensures
            r.wf(),
            r.results() == Seq::new(count as nat, |i: int| None::<Result<T, E>>),
            !r.is_awaiting(),
            !r.is_finished(),
    {
        let is_ready_future = vec![false; count];
        let ghost results = Seq::new(count as nat, |i: int| None::<Result<T, E>>);
        proof {
            lemma_open_count_all_open(results);
        }
        SolutionFuture {
            is_ready_future,
            pending_count: count,
            cursor: 0,
            awaiting: false,
            finished: false,
            results: Ghost(results),
        }
    }

    /// Index of the first operation at or after `from` that has not settled, or the
    /// number of operations when there is none.
    fn next_open(&self, from: usize) -> (r: usize)
        requires
            self.wf(),
            from <= self.results().len(),
        ensures
            r == first_open_from(self.results(), from as nat),
    {
        let n = self.is_ready_future.len();
        let mut i: usize = from;
        while i < n && self.is_ready_future[i]
            invariant
                self.wf(),
                n == self.results().len(),
                from <= i <= n,
                first_open_from(self.results(), from as nat) == first_open_from(
                    self.results(),
                    i as nat,
                ),
            decreases n - i,
        {
            i = i + 1;
        }
        i
    }

    /// Starts a pass: the race asks for the first operation that has not settled.
    pub fn activate(&mut self) -> (r: RaceStep<T, E>)
        requires
            old(self).wf(),
            !old(self).is_awaiting(),
            !old(self).is_finished(),
        ensures
            final(self).wf(),
            final(self).results() == old(self).results(),
            final(self).is_awaiting(),
            !final(self).is_finished(),
            final(self).cursor() == first_open_from(old(self).results(), 0),
            r == RaceStep::<T, E>::Poll(final(self).cursor() as usize),
    {
        let first = self.next_open(0);
        proof {
            lemma_first_open_bounds(self.results@, 0);
            if first >= self.results@.len() {
                assert forall|i: int| 0 <= i < self.results@.len() implies #[trigger] self.results@[i] is Some by {
                    lemma_first_open_upto(self.results@, 0, i as nat);
                }
                lemma_open_count_none_open(self.results@);
            }
        }
        self.cursor = first;
        self.awaiting = true;
        RaceStep::Poll(first)
    }

    /// Takes the report on the operation at `cursor`: `None` if it has not finished,
    /// else the result it finished with. A success ends the race at once; otherwise
    /// the pass moves on to the next operation that has not settled. When the pass is
    /// over, the race fails if every operation has failed (with the failure just
    /// reported, the last one of the pass), and waits otherwise.
    pub fn observe(&mut self, polled: Option<Result<T, E>>) -> (r: RaceStep<T, E>)
        requires
            old(self).wf(),
            old(self).is_awaiting(),
        ensures
            final(self).wf(),
            final(self).results() == record(old(self).results(), old(self).cursor() as int, polled),
            polled matches Some(Ok(_)) ==> r == RaceStep::Ready(polled->0) && final(self).is_finished(),
            !(polled matches Some(Ok(_))) ==> ({
                let next = first_open_from(final(self).results(), old(self).cursor() + 1);
                &&& next < final(self).results().len() ==> r == RaceStep::<T, E>::Poll(next as usize)
                    && final(self).is_awaiting() && final(self).cursor() == next
                &&& next >= final(self).results().len() && open_count(final(self).results()) > 0
                    ==> r is Pending && !final(self).is_awaiting() && !final(self).is_finished()
                &&& next >= final(self).results().len() && open_count(final(self).results()) == 0
                    ==> r == RaceStep::Ready(polled->0) && final(self).is_finished()
            }),
            r matches RaceStep::Ready(out) ==> resolves_to(final(self).results(), out),
    {
        let i = self.cursor;
        let ghost before = self.results@;
        match polled {
            None => {},
            Some(result) => {
                proof {
                    lemma_open_count_settle(before, i as int, Some(result));
                }
                self.results = Ghost(before.update(i as int, Some(result)));
                self.is_ready_future.set(i, true);
                self.pending_count = self.pending_count - 1;
                match result {
                    Ok(v) => {
                        self.awaiting = false;
                        self.finished = true;
                        proof {
                            assert(self.results@[i as int] == Some(Ok::<T, E>(v)));
                        }
                        return RaceStep::Ready(Ok(v));
                    },
                    Err(e) => {
                        if self.pending_count == 0 {
                            self.awaiting = false;
                            self.finished = true;
                            proof {
                                lemma_open_count_zero(self.results@);
                                lemma_first_open_bounds(self.results@, i as nat + 1);
                                lemma_first_open_all_settled(self.results@, i as nat + 1);
                                assert(self.results@[i as int] == Some(Err::<T, E>(e)));
                            }
                            return RaceStep::Ready(Err(e));
                        }
                    },
                }
            },
        }
        self.awaiting = false;
        let n = self.is_ready_future.len();
        assert(i < n);
        let next = self.next_open(i + 1);
        proof {
            lemma_first_open_bounds(self.results@, i as nat + 1);
        }
        if next < n {
            self.cursor = next;
            self.awaiting = true;
            RaceStep::Poll(next)
        } else {
            RaceStep::Pending
        }
    }
}

proof fn lemma_first_open_upto<T, E>(results: Seq<Option<Result<T, E>>>, from: nat, i: nat)
    requires
        from <= i < first_open_from(results, from),
        i < results.len(),
    ensures
        results[i as int] is Some,
    decreases i - from,
{
    if from < i {
        lemma_first_open_upto(results, from + 1, i);
    }
}

proof fn lemma_first_open_all_settled<T, E>(results: Seq<Option<Result<T, E>>>, from: nat)
    requires
        from <= results.len(),
        forall|i: int| 0 <= i < results.len() ==> #[trigger] results[i] is Some,
    ensures
        first_open_from(results, from) == results.len(),
    decreases results.len() - from,
{
    if from < results.len() {
        lemma_first_open_all_settled(results, from + 1);
    }
}

proof fn lemma_open_count_none_open<T, E>(results: Seq<Option<Result<T, E>>>)
    requires
        forall|i: int| 0 <= i < results.len() ==> #[trigger] results[i] is Some,
    ensures
        open_count(results) == 0,
    decreases results.len(),
{
    if results.len() > 0 {
        lemma_open_count_none_open(results.drop_last());
    }
}

} // verus!

verus! {

/// The settled results agree with what each operation eventually produces.
pub open spec fn agrees_with<T, E>(
    results: Seq<Option<Result<T, E>>>,
    eventual: Seq<Result<T, E>>,
) -> bool {
    &&& results.len() == eventual.len()
    &&& forall|i: int|
        0 <= i < results.len() && #[trigger] results[i] is Some ==> results[i] == Some(
            eventual[i],
        )
}

/// The failure of a co-racer never preempts the success of another: when some
/// operation eventually succeeds, a race that resolves resolves to a success.
pub proof fn lemma_success_not_preempted<T, E>(
    results: Seq<Option<Result<T, E>>>,
    eventual: Seq<Result<T, E>>,
    j: int,
    out: Result<T, E>,
)
    requires
        agrees_with(results, eventual),
        0 <= j < eventual.len(),
        eventual[j] is Ok,
        resolves_to(results, out),
    ensures
        out is Ok,
{
    if out is Err {
        assert(results[j] is Some);
    }
}

/// When exactly one operation eventually succeeds, a race that resolves resolves to
/// that operation's value, whatever its position and however long it takes.
pub proof fn lemma_sole_success_wins<T, E>(
    results: Seq<Option<Result<T, E>>>,
    eventual: Seq<Result<T, E>>,
    j: int,
    out: Result<T, E>,
)
    requires
        agrees_with(results, eventual),
        0 <= j < eventual.len(),
        eventual[j] is Ok,
        forall|i: int| 0 <= i < eventual.len() && i != j ==> #[trigger] eventual[i] is Err,
        resolves_to(results, out),
    ensures
        out == eventual[j],
{
    lemma_success_not_preempted(results, eventual, j, out);
    let i = choose|i: int| 0 <= i < results.len() && results[i] == Some(out);
    assert(results[i] is Some);
    assert(eventual[i] == out);
}

/// When every operation eventually fails, a race that resolves fails, with the
/// failure of one of its operations.
pub proof fn lemma_all_failing_race_fails<T, E>(
    results: Seq<Option<Result<T, E>>>,
    eventual: Seq<Result<T, E>>,
    out: Result<T, E>,
)
    requires
        agrees_with(results, eventual),
        forall|i: int| 0 <= i < eventual.len() ==> #[trigger] eventual[i] is Err,
        resolves_to(results, out),
    ensures
        out is Err,
        exists|i: int| 0 <= i < eventual.len() && eventual[i] == out,
{
    let i = choose|i: int| 0 <= i < results.len() && results[i] == Some(out);
    assert(results[i] is Some);
    assert(eventual[i] == out);
}

} // verus!
