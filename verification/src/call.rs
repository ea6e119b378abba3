//! Abstract calls, submitter answers, and the operation log.
//!
//! The engine itself performs no network traffic. Every network operation it
//! decides on — declaring an artifact, invoking one call, submitting an
//! atomic multicall — is recorded as a [`ChainOp`], and the answer the
//! submitter gave for each operation is read from a transcript, one answer
//! per operation in order. The [`Executor`] pairs the two up; its contracts
//! pin exactly which operations a run submits for a given transcript.

use vstd::prelude::*;

use crate::felt::FieldElement;

verus! {

/// One abstract operation against a contract: target address, entry point
/// name and serialized arguments. The submitter resolves the entry point
/// name to its on-chain selector when it builds the transaction.
#[derive(Clone, PartialEq, Eq, Debug)]
pub struct Call {
    pub to: FieldElement,
    pub entrypoint: String,
    pub calldata: Vec<FieldElement>,
}

/// The mathematical shape of a [`Call`].
pub ghost struct CallModel {
    pub to: FieldElement,
    pub entrypoint: Seq<char>,
    pub calldata: Seq<FieldElement>,
}

impl View for Call {
    type V = CallModel;

    open spec fn view(&self) -> CallModel {
        CallModel { to: self.to, entrypoint: self.entrypoint@, calldata: self.calldata@ }
    }
}

impl Call {
    /// An equal copy of this call.
    pub fn duplicate(&self) -> (r: Call)
        ensures
            r@ == self@,
    {
        let mut calldata: Vec<FieldElement> = Vec::new();
        let mut i: usize = 0;
        while i < self.calldata.len()
            invariant
                i <= self.calldata@.len(),
                calldata@ =~= self.calldata@.take(i as int),
            decreases self.calldata@.len() - i,
        {
            calldata.push(self.calldata[i]);
            proof {
                assert(self.calldata@.take(i + 1) =~= self.calldata@.take(i as int).push(
                    self.calldata@[i as int],
                ));
            }
            i += 1;
        }
        proof {
            assert(self.calldata@.take(self.calldata@.len() as int) =~= self.calldata@);
        }
        Call { to: self.to, entrypoint: self.entrypoint.clone(), calldata }
    }
}

/// The views of a sequence of calls.
pub open spec fn call_views(s: Seq<Call>) -> Seq<CallModel> {
    s.map_values(|c: Call| c@)
}

/// How the submitter answered one operation. `AlreadyDeclared` is the
/// platform's idempotent answer to re-declaring a known artifact; for every
/// other operation it counts as acceptance.
#[derive(Clone, Copy, PartialEq, Eq, Debug)]
pub enum SubmitOutcome {
    Accepted,
    AlreadyDeclared,
    Rejected(SubmitFailure),
}

/// Why the submitter rejected an operation: the platform reverted it, or the
/// account could not sign it.
#[derive(Clone, Copy, PartialEq, Eq, Debug)]
pub enum SubmitFailure {
    Reverted,
    Signing,
}

/// A network operation the engine submitted. A declare operation names its
/// artifact by the content-derived compiled-class hash; the payload itself
/// stays in the declarer's registry, keyed by that hash.
#[derive(Clone, PartialEq, Eq, Debug)]
pub enum ChainOp {
    /// Declare the compiled artifact with this compiled-class hash.
    Declare { casm_class_hash: FieldElement },
    /// Submit one call as its own transaction.
    Invoke { call: Call },
    /// Submit a batch of calls as one atomic transaction.
    Multicall { calls: Vec<Call> },
}

/// The mathematical shape of a [`ChainOp`].
pub ghost enum ChainOpModel {
    Declare { casm_class_hash: FieldElement },
    Invoke { call: CallModel },
    Multicall { calls: Seq<CallModel> },
}

impl View for ChainOp {
    type V = ChainOpModel;

    open spec fn view(&self) -> ChainOpModel {
        match *self {
            ChainOp::Declare { casm_class_hash } => ChainOpModel::Declare { casm_class_hash },
            ChainOp::Invoke { call } => ChainOpModel::Invoke { call: call@ },
            ChainOp::Multicall { calls } => ChainOpModel::Multicall { calls: call_views(calls@) },
        }
    }
}

/// The views of a sequence of operations.
pub open spec fn op_views(s: Seq<ChainOp>) -> Seq<ChainOpModel> {
    s.map_values(|o: ChainOp| o@)
}

/// Viewing a sequence of operations commutes with appending one.
pub broadcast proof fn lemma_op_views_push(s: Seq<ChainOp>, op: ChainOp)
    ensures
        #[trigger] op_views(s.push(op)) =~= op_views(s).push(op@),
{
    assert forall|k: int| 0 <= k < s.len() + 1 implies op_views(s.push(op))[k] == op_views(
        s,
    ).push(op@)[k] by {
        if k < s.len() {
            assert(s.push(op)[k] == s[k]);
        } else {
            assert(s.push(op)[k] == op);
        }
    }
}

/// Viewing a sequence of calls commutes with appending one.
pub broadcast proof fn lemma_call_views_push(s: Seq<Call>, c: Call)
    ensures
        #[trigger] call_views(s.push(c)) =~= call_views(s).push(c@),
{
    assert forall|k: int| 0 <= k < s.len() + 1 implies call_views(s.push(c))[k] == call_views(
        s,
    ).push(c@)[k] by {
        if k < s.len() {
            assert(s.push(c)[k] == s[k]);
        } else {
            assert(s.push(c)[k] == c);
        }
    }
}

/// The transcript's answer for the operation at position `i`: answers past
/// the end of the transcript count as accepted.
pub open spec fn outcome_of(outcomes: Seq<SubmitOutcome>, i: int) -> SubmitOutcome {
    if 0 <= i < outcomes.len() {
        outcomes[i]
    } else {
        SubmitOutcome::Accepted
    }
}

/// True of every answer but a rejection.
pub open spec fn accepted(o: SubmitOutcome) -> bool {
    !(o is Rejected)
}

/// The position, among `n` operations whose answers start at `start` of the
/// transcript, of the first operation the submitter rejected; `None` where
/// all `n` are accepted.
pub open spec fn first_rejection(outcomes: Seq<SubmitOutcome>, start: int, n: int) -> Option<int>
    decreases n,
{
    if n <= 0 {
        None
    } else if !accepted(outcome_of(outcomes, start)) {
        Some(0int)
    } else {
        match first_rejection(outcomes, start + 1, n - 1) {
            Some(j) => Some(j + 1),
            None => None,
        }
    }
}

/// How many of `n` planned operations are submitted at all: everything up to
/// and including the first rejected one, or all `n` where none is rejected.
pub open spec fn attempted_of(outcomes: Seq<SubmitOutcome>, start: int, n: int) -> int {
    match first_rejection(outcomes, start, n) {
        Some(j) => j + 1,
        None => n,
    }
}

/// Which calls an answered operation irreversibly committed on chain: a
/// rejected operation commits nothing, an accepted single call commits that
/// call, and an accepted atomic batch commits all of its calls — a rejected
/// one none of them, which is the platform's atomicity guarantee.
pub open spec fn committed_calls(op: ChainOpModel, outcome: SubmitOutcome) -> Seq<CallModel> {
    match op {
        ChainOpModel::Declare { .. } => Seq::empty(),
        ChainOpModel::Invoke { call } => if accepted(outcome) {
            seq![call]
        } else {
            Seq::empty()
        },
        ChainOpModel::Multicall { calls } => if accepted(outcome) {
            calls
        } else {
            Seq::empty()
        },
    }
}

/// All calls committed by a sequence of answered operations whose answers
/// start at position `start` of the transcript.
pub open spec fn committed_of(
    ops: Seq<ChainOpModel>,
    outcomes: Seq<SubmitOutcome>,
    start: int,
) -> Seq<CallModel>
    decreases ops.len(),
{
    if ops.len() == 0 {
        Seq::empty()
    } else {
        committed_calls(ops[0], outcome_of(outcomes, start)) + committed_of(
            ops.drop_first(),
            outcomes,
            start + 1,
        )
    }
}

/// Appending one accepted answer keeps a run rejection-free.
pub proof fn lemma_first_rejection_extend(outcomes: Seq<SubmitOutcome>, start: int, i: int)
    requires
        0 <= i,
        first_rejection(outcomes, start, i) is None,
        accepted(outcome_of(outcomes, start + i)),
    ensures
        first_rejection(outcomes, start, i + 1) is None,
    decreases i,
{
    if i == 0 {
        assert(first_rejection(outcomes, start + 1, 0) is None);
    } else {
        lemma_first_rejection_extend(outcomes, start + 1, i - 1);
    }
}

/// A rejection right after `k` accepted answers is the first one among any
/// larger number of planned operations.
pub proof fn lemma_first_rejection_found(
    outcomes: Seq<SubmitOutcome>,
    start: int,
    k: int,
    n: int,
)
    requires
        0 <= k < n,
        first_rejection(outcomes, start, k) is None,
        !accepted(outcome_of(outcomes, start + k)),
    ensures
        first_rejection(outcomes, start, n) == Some(k),
    decreases k,
{
    if k > 0 {
        lemma_first_rejection_found(outcomes, start + 1, k - 1, n - 1);
    }
}

/// Pairs the operations of one migration run with a transcript of submitter
/// answers: the answer at position `i` of the transcript belongs to the
/// `i`-th operation submitted, and a missing answer counts as accepted.
pub struct Executor {
    pub outcomes: Vec<SubmitOutcome>,
    pub ops: Vec<ChainOp>,
}

impl Executor {
    /// The views of the operations submitted so far.
    pub open spec fn log(&self) -> Seq<ChainOpModel> {
        op_views(self.ops@)
    }

    /// A fresh executor over a transcript; no operation submitted yet.
    pub fn new(outcomes: Vec<SubmitOutcome>) -> (r: Executor)
        ensures
            r.outcomes == outcomes,
            r.ops@ =~= Seq::<ChainOp>::empty(),
    {
        Executor { outcomes, ops: Vec::new() }
    }

    /// Submit one operation: record it in the log and consume the
    /// transcript's answer for its position.
    pub fn submit(&mut self, op: ChainOp) -> (r: SubmitOutcome)
        ensures
            final(self).outcomes == old(self).outcomes,
            final(self).ops@ == old(self).ops@.push(op),
            r == outcome_of(old(self).outcomes@, old(self).ops@.len() as int),
    {
        let r = if self.ops.len() < self.outcomes.len() {
            self.outcomes[self.ops.len()]
        } else {
            SubmitOutcome::Accepted
        };
        self.ops.push(op);
        r
    }
}

} // verus!
