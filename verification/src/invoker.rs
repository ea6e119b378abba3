//! The call batcher: accumulates abstract calls against target contracts and
//! executes them either as one atomic multicall transaction or as an ordered
//! sequence of independent transactions.
//!
//! The two modes differ in their failure semantics: an atomic batch commits
//! all of its calls or none of them, while a sequential run commits exactly
//! the calls before the first failing one — an irreversible partial effect
//! that callers must expect by design. Both semantics are stated and proved
//! below.

use vstd::prelude::*;

use crate::call::{
    accepted, attempted_of, call_views, committed_calls, committed_of, first_rejection,
    lemma_call_views_push, lemma_first_rejection_extend, lemma_first_rejection_found,
    lemma_op_views_push, outcome_of, Call, CallModel, ChainOp, ChainOpModel, Executor,
    SubmitFailure, SubmitOutcome,
};
use crate::error::MigrationError;

verus! {

/// The operations of a sequential run: one invoke per call, in insertion
/// order.
pub open spec fn invoke_ops(calls: Seq<Call>) -> Seq<ChainOpModel> {
    calls.map_values(|c: Call| ChainOpModel::Invoke { call: c@ })
}

/// The operations of an atomic run: one multicall holding every call, or
/// nothing at all for an empty batch.
pub open spec fn multicall_ops(calls: Seq<Call>) -> Seq<ChainOpModel> {
    if calls.len() == 0 {
        Seq::empty()
    } else {
        seq![ChainOpModel::Multicall { calls: call_views(calls) }]
    }
}

/// The result of an atomic run: an empty batch is a trivial success, a
/// rejected multicall fails as a unit with nothing committed, and a signing
/// failure is surfaced verbatim.
pub open spec fn multicall_result(
    calls: Seq<Call>,
    outcomes: Seq<SubmitOutcome>,
    start: int,
) -> Result<(), MigrationError> {
    if calls.len() == 0 {
        Ok(())
    } else {
        match outcome_of(outcomes, start) {
            SubmitOutcome::Rejected(SubmitFailure::Signing) => Err(MigrationError::Signing),
            SubmitOutcome::Rejected(SubmitFailure::Reverted) => Err(
                MigrationError::Execution { failed: 0, committed: 0 },
            ),
            _ => Ok(()),
        }
    }
}

/// The result of a sequential run: the first rejection aborts the remaining
/// calls and reports which call failed and how many before it had already
/// been committed.
pub open spec fn sequential_result(
    calls: Seq<Call>,
    outcomes: Seq<SubmitOutcome>,
    start: int,
) -> Result<(), MigrationError> {
    match first_rejection(outcomes, start, calls.len() as int) {
        None => Ok(()),
        Some(j) => match outcome_of(outcomes, start + j) {
            SubmitOutcome::Rejected(SubmitFailure::Signing) => Err(MigrationError::Signing),
            _ => Err(MigrationError::Execution { failed: j as usize, committed: j as usize }),
        },
    }
}

/// The operations a batch submits in the given mode against a transcript.
pub open spec fn batch_ops(
    calls: Seq<Call>,
    multicall: bool,
    outcomes: Seq<SubmitOutcome>,
    start: int,
) -> Seq<ChainOpModel> {
    if multicall {
        multicall_ops(calls)
    } else {
        invoke_ops(calls).take(attempted_of(outcomes, start, calls.len() as int))
    }
}

/// The result of a batch in the given mode against a transcript.
pub open spec fn batch_result(
    calls: Seq<Call>,
    multicall: bool,
    outcomes: Seq<SubmitOutcome>,
    start: int,
) -> Result<(), MigrationError> {
    if multicall {
        multicall_result(calls, outcomes, start)
    } else {
        sequential_result(calls, outcomes, start)
    }
}

/// As [`invoke_ops`], over call models.
pub open spec fn invoke_ops_m(cs: Seq<CallModel>) -> Seq<ChainOpModel> {
    cs.map_values(|c: CallModel| ChainOpModel::Invoke { call: c })
}

/// As [`multicall_ops`], over call models.
pub open spec fn multicall_ops_m(cs: Seq<CallModel>) -> Seq<ChainOpModel> {
    if cs.len() == 0 {
        Seq::empty()
    } else {
        seq![ChainOpModel::Multicall { calls: cs }]
    }
}

/// As [`batch_ops`], over call models.
pub open spec fn batch_ops_m(
    cs: Seq<CallModel>,
    multicall: bool,
    outcomes: Seq<SubmitOutcome>,
    start: int,
) -> Seq<ChainOpModel> {
    if multicall {
        multicall_ops_m(cs)
    } else {
        invoke_ops_m(cs).take(attempted_of(outcomes, start, cs.len() as int))
    }
}

/// As [`batch_result`], over call models.
pub open spec fn batch_result_m(
    cs: Seq<CallModel>,
    multicall: bool,
    outcomes: Seq<SubmitOutcome>,
    start: int,
) -> Result<(), MigrationError> {
    if multicall {
        if cs.len() == 0 {
            Ok(())
        } else {
            match outcome_of(outcomes, start) {
                SubmitOutcome::Rejected(SubmitFailure::Signing) => Err(MigrationError::Signing),
                SubmitOutcome::Rejected(SubmitFailure::Reverted) => Err(
                    MigrationError::Execution { failed: 0, committed: 0 },
                ),
                _ => Ok(()),
            }
        }
    } else {
        match first_rejection(outcomes, start, cs.len() as int) {
            None => Ok(()),
            Some(j) => match outcome_of(outcomes, start + j) {
                SubmitOutcome::Rejected(SubmitFailure::Signing) => Err(MigrationError::Signing),
                _ => Err(MigrationError::Execution { failed: j as usize, committed: j as usize }),
            },
        }
    }
}

/// A batch over calls and the same batch over their models submit the same
/// operations and end the same way.
pub proof fn lemma_batch_views(
    v: Seq<Call>,
    multicall: bool,
    outcomes: Seq<SubmitOutcome>,
    start: int,
)
    ensures
        batch_ops(v, multicall, outcomes, start) == batch_ops_m(
            call_views(v),
            multicall,
            outcomes,
            start,
        ),
        batch_result(v, multicall, outcomes, start) == batch_result_m(
            call_views(v),
            multicall,
            outcomes,
            start,
        ),
{
    assert(call_views(v).len() == v.len());
    assert(invoke_ops(v) =~= invoke_ops_m(call_views(v)));
    assert(multicall_ops(v) =~= multicall_ops_m(call_views(v)));
}

/// Accumulates calls and executes them in one of the two modes; the
/// accumulation is consumed exactly once by its execution step.
pub struct Invoker {
    pub calls: Vec<Call>,
}

impl Invoker {
    /// An empty batch.
    pub fn new() -> (r: Invoker)
        ensures
            r.calls@ =~= Seq::<Call>::empty(),
    {
        Invoker { calls: Vec::new() }
    }

    /// Append one call; calls keep their insertion order.
    pub fn add_call(&mut self, call: Call)
        ensures
            final(self).calls@ == old(self).calls@.push(call),
    {
        self.calls.push(call);
    }

    /// Submit the whole batch as one atomic multicall transaction, which
    /// succeeds or fails as a unit. An empty batch submits nothing and
    /// succeeds trivially.
    pub fn multicall(&self, ex: &mut Executor) -> (r: Result<(), MigrationError>)
        ensures
            final(ex).outcomes@ == old(ex).outcomes@,
            final(ex).log() == old(ex).log() + multicall_ops(self.calls@),
            r == multicall_result(self.calls@, old(ex).outcomes@, old(ex).ops@.len() as int),
    {
        let ghost cs = self.calls@;
        if self.calls.len() == 0 {
            proof {
                assert(old(ex).log() + multicall_ops(cs) =~= old(ex).log());
            }
            return Ok(());
        }
        let mut batch: Vec<Call> = Vec::new();
        let mut k: usize = 0;
        while k < self.calls.len()
            invariant
                k <= self.calls@.len(),
                call_views(batch@) =~= call_views(self.calls@).take(k as int),
            decreases self.calls@.len() - k,
        {
            let c = self.calls[k].duplicate();
            let ghost c0 = c;
            let ghost prevb = batch@;
            batch.push(c);
            proof {
                assert(batch@ == prevb.push(c0));
                lemma_call_views_push(prevb, c0);
                assert(call_views(self.calls@).take(k + 1) =~= call_views(self.calls@).take(
                    k as int,
                ).push(self.calls@[k as int]@));
                assert(call_views(batch@) =~= call_views(self.calls@).take(k + 1));
            }
            k += 1;
        }
        proof {
            assert(call_views(self.calls@).take(self.calls@.len() as int) =~= call_views(
                self.calls@,
            ));
            assert(call_views(batch@) == call_views(cs));
        }
        let op = ChainOp::Multicall { calls: batch };
        let ghost op0 = op;
        let ghost prev = ex.ops@;
        let oc = ex.submit(op);
        proof {
            assert(ex.ops@ == prev.push(op0));
            lemma_op_views_push(prev, op0);
            assert(multicall_ops(cs) =~= seq![op0@]);
            assert(ex.log() =~= old(ex).log() + multicall_ops(cs));
        }
        match oc {
            SubmitOutcome::Rejected(SubmitFailure::Signing) => Err(MigrationError::Signing),
            SubmitOutcome::Rejected(SubmitFailure::Reverted) => Err(
                MigrationError::Execution { failed: 0, committed: 0 },
            ),
            _ => Ok(()),
        }
    }

    /// Submit each call as its own transaction, in insertion order, waiting
    /// for each to settle before issuing the next. The first failure aborts
    /// the remaining calls; the calls before it stay committed.
    pub fn invoke_all_sequentially(&self, ex: &mut Executor) -> (r: Result<(), MigrationError>)
        ensures
            final(ex).outcomes@ == old(ex).outcomes@,
            final(ex).log() == old(ex).log() + invoke_ops(self.calls@).take(
                attempted_of(
                    old(ex).outcomes@,
                    old(ex).ops@.len() as int,
                    self.calls@.len() as int,
                ),
            ),
            r == sequential_result(self.calls@, old(ex).outcomes@, old(ex).ops@.len() as int),
    {
        let ghost all = self.calls@;
        let ghost start = old(ex).ops@.len() as int;
        let ghost n = all.len() as int;
        let total: usize = self.calls.len();
        let mut i: usize = 0;
        while i < total
            invariant
                n == all.len() as int,
                all == self.calls@,
                total == all.len(),
                i <= total,
                ex.outcomes@ == old(ex).outcomes@,
                ex.ops@.len() as int == start + i,
                first_rejection(ex.outcomes@, start, i as int) is None,
                ex.log() =~= old(ex).log() + invoke_ops(all).take(i as int),
            decreases total - i,
        {
            let c = self.calls[i].duplicate();
            proof {
                assert(all[i as int]@ == c@);
            }
            let op = ChainOp::Invoke { call: c };
            let ghost op0 = op;
            let ghost prev = ex.ops@;
            let oc = ex.submit(op);
            proof {
                assert(ex.ops@ == prev.push(op0));
                lemma_op_views_push(prev, op0);
                assert(invoke_ops(all)[i as int] == op0@);
                assert(invoke_ops(all).take(i + 1) =~= invoke_ops(all).take(i as int).push(op0@));
                assert(ex.log() =~= old(ex).log() + invoke_ops(all).take(i + 1));
            }
            match oc {
                SubmitOutcome::Rejected(f) => {
                    proof {
                        lemma_first_rejection_found(ex.outcomes@, start, i as int, n);
                        assert(attempted_of(old(ex).outcomes@, start, n) == i + 1);
                    }
                    match f {
                        SubmitFailure::Signing => {
                            return Err(MigrationError::Signing);
                        },
                        SubmitFailure::Reverted => {
                            return Err(MigrationError::Execution { failed: i, committed: i });
                        },
                    }
                },
                _ => {
                    proof {
                        lemma_first_rejection_extend(ex.outcomes@, start, i as int);
                    }
                },
            }
            i += 1;
        }
        Ok(())
    }

    /// Execute the accumulated batch in the configured mode: one atomic
    /// multicall where `multicall` is set, else one transaction per call.
    /// The mode toggle is evaluated once per migration run, not per phase.
    pub fn execute(&self, multicall: bool, ex: &mut Executor) -> (r: Result<(), MigrationError>)
        ensures
            final(ex).outcomes@ == old(ex).outcomes@,
            final(ex).log() == old(ex).log() + batch_ops(
                self.calls@,
                multicall,
                old(ex).outcomes@,
                old(ex).ops@.len() as int,
            ),
            r == batch_result(
                self.calls@,
                multicall,
                old(ex).outcomes@,
                old(ex).ops@.len() as int,
            ),
    {
        if multicall {
            self.multicall(ex)
        } else {
            self.invoke_all_sequentially(ex)
        }
    }
}

/// Splitting a run of operations splits what it commits.
pub proof fn lemma_committed_concat(
    a: Seq<ChainOpModel>,
    b: Seq<ChainOpModel>,
    outcomes: Seq<SubmitOutcome>,
    start: int,
)
    ensures
        committed_of(a + b, outcomes, start) =~= committed_of(a, outcomes, start) + committed_of(
            b,
            outcomes,
            start + a.len(),
        ),
    decreases a.len(),
{
    if a.len() == 0 {
        assert(a + b =~= b);
        assert(committed_of(a, outcomes, start) =~= Seq::<CallModel>::empty());
    } else {
        assert((a + b)[0] == a[0]);
        assert((a + b).drop_first() =~= a.drop_first() + b);
        lemma_committed_concat(a.drop_first(), b, outcomes, start + 1);
    }
}

/// An atomic batch commits all of its calls or none of them: a failed
/// multicall leaves zero calls committed, a successful one all of them.
pub proof fn lemma_atomic_all_or_nothing(
    calls: Seq<Call>,
    outcomes: Seq<SubmitOutcome>,
    start: int,
)
    ensures
        multicall_result(calls, outcomes, start) is Err ==> committed_of(
            multicall_ops(calls),
            outcomes,
            start,
        ) =~= Seq::<CallModel>::empty(),
        multicall_result(calls, outcomes, start) is Ok ==> committed_of(
            multicall_ops(calls),
            outcomes,
            start,
        ) =~= call_views(calls),
{
    if calls.len() == 0 {
        assert(committed_of(multicall_ops(calls), outcomes, start) =~= Seq::<CallModel>::empty());
        assert(call_views(calls) =~= Seq::<CallModel>::empty());
    } else {
        let op = ChainOpModel::Multicall { calls: call_views(calls) };
        assert(multicall_ops(calls) =~= seq![op]);
        assert(seq![op][0] == op);
        assert(seq![op].drop_first() =~= Seq::<ChainOpModel>::empty());
        assert(committed_of(Seq::<ChainOpModel>::empty(), outcomes, start + 1)
            =~= Seq::<CallModel>::empty());
        assert(committed_of(seq![op], outcomes, start) =~= committed_calls(
            op,
            outcome_of(outcomes, start),
        ));
    }
}

/// All of the first `k` calls of a rejection-free sequential run are
/// committed.
pub proof fn lemma_sequential_commits_prefix(
    calls: Seq<Call>,
    outcomes: Seq<SubmitOutcome>,
    start: int,
    k: int,
)
    requires
        0 <= k <= calls.len(),
        first_rejection(outcomes, start, k) is None,
    ensures
        committed_of(invoke_ops(calls).take(k), outcomes, start) =~= call_views(calls).take(k),
    decreases k,
{
    if k == 0 {
        assert(invoke_ops(calls).take(0) =~= Seq::<ChainOpModel>::empty());
    } else {
        let rest = calls.drop_first();
        assert(invoke_ops(calls).take(k).drop_first() =~= invoke_ops(rest).take(k - 1));
        assert(invoke_ops(calls).take(k)[0] == ChainOpModel::Invoke { call: calls[0]@ });
        assert(accepted(outcome_of(outcomes, start)));
        lemma_sequential_commits_prefix(rest, outcomes, start + 1, k - 1);
        assert(call_views(calls).take(k) =~= seq![calls[0]@] + call_views(rest).take(k - 1));
    }
}

/// A sequential run that fails at position `j` leaves exactly the `j` calls
/// before the failing one committed, and none after it.
pub proof fn lemma_sequential_partial_commit(
    calls: Seq<Call>,
    outcomes: Seq<SubmitOutcome>,
    start: int,
    j: int,
)
    requires
        first_rejection(outcomes, start, calls.len() as int) == Some(j),
    ensures
        committed_of(
            invoke_ops(calls).take(j + 1),
            outcomes,
            start,
        ) =~= call_views(calls).take(j),
{
    lemma_first_rejection_bounds(outcomes, start, calls.len() as int, j);
    let pre = invoke_ops(calls).take(j);
    let last = seq![invoke_ops(calls)[j]];
    assert(invoke_ops(calls).take(j + 1) =~= pre + last);
    lemma_committed_concat(pre, last, outcomes, start);
    lemma_sequential_commits_prefix(calls, outcomes, start, j);
    assert(last[0] == invoke_ops(calls)[j]);
    assert(last.drop_first() =~= Seq::<ChainOpModel>::empty());
    assert(committed_of(Seq::<ChainOpModel>::empty(), outcomes, start + j + 1)
        =~= Seq::<CallModel>::empty());
    assert(!accepted(outcome_of(outcomes, start + j)));
    assert(committed_of(last, outcomes, start + j) =~= committed_calls(
        invoke_ops(calls)[j],
        outcome_of(outcomes, start + j),
    ));
}

/// The position of the first rejection lies among the planned operations,
/// no operation before it is rejected, and the operation there is rejected.
pub proof fn lemma_first_rejection_bounds(
    outcomes: Seq<SubmitOutcome>,
    start: int,
    n: int,
    j: int,
)
    requires
        first_rejection(outcomes, start, n) == Some(j),
    ensures
        0 <= j < n,
        first_rejection(outcomes, start, j) is None,
        !accepted(outcome_of(outcomes, start + j)),
    decreases n,
{
    if n > 0 {
        if accepted(outcome_of(outcomes, start)) {
            lemma_first_rejection_bounds(outcomes, start + 1, n - 1, j - 1);
            lemma_first_rejection_extend_none(outcomes, start, j);
        }
    }
}

/// A run whose first rejection lies at or past `m` is rejection-free over
/// its first `m` operations.
pub proof fn lemma_first_rejection_extend_none(outcomes: Seq<SubmitOutcome>, start: int, m: int)
    requires
        m >= 1,
        accepted(outcome_of(outcomes, start)),
        first_rejection(outcomes, start + 1, m - 1) is None,
    ensures
        first_rejection(outcomes, start, m) is None,
{
}

} // verus!
