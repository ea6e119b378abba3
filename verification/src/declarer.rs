//! The artifact declarer: a registry of compiled artifacts keyed by their
//! content-derived compiled-class hash, inserted idempotently and declared
//! on chain exactly once each.

use vstd::prelude::*;

use crate::call::{
    attempted_of, first_rejection, lemma_first_rejection_extend, lemma_first_rejection_found,
    lemma_op_views_push, outcome_of, ChainOp, ChainOpModel, Executor, SubmitFailure,
    SubmitOutcome,
};
use crate::error::MigrationError;
use crate::felt::FieldElement;

verus! {

/// The registry as mathematics: each entry's hash with its payload bytes.
pub open spec fn registry_of(s: Seq<(FieldElement, Vec<u8>)>) -> Seq<(FieldElement, Seq<u8>)> {
    s.map_values(|p: (FieldElement, Vec<u8>)| (p.0, p.1@))
}

/// The registry view commutes with appending one entry.
pub broadcast proof fn lemma_registry_push(s: Seq<(FieldElement, Vec<u8>)>, p: (FieldElement, Vec<u8>))
    ensures
        #[trigger] registry_of(s.push(p)) =~= registry_of(s).push((p.0, p.1@)),
{
    assert forall|k: int| 0 <= k < s.len() + 1 implies registry_of(s.push(p))[k] == registry_of(
        s,
    ).push((p.0, p.1@))[k] by {
        if k < s.len() {
            assert(s.push(p)[k] == s[k]);
        } else {
            assert(s.push(p)[k] == p);
        }
    }
}

/// True where some entry of the registry already carries this hash.
pub open spec fn has_class(s: Seq<(FieldElement, Seq<u8>)>, h: FieldElement) -> bool {
    exists|i: int| 0 <= i < s.len() && s[i].0 == h
}

/// What one insertion does to the registry: nothing where the hash is
/// already present, else the pair goes at the end.
pub open spec fn add_class_spec(
    s: Seq<(FieldElement, Seq<u8>)>,
    h: FieldElement,
    a: Seq<u8>,
) -> Seq<(FieldElement, Seq<u8>)> {
    if has_class(s, h) {
        s
    } else {
        s.push((h, a))
    }
}

/// The declare operations for a registry, one per entry, in insertion order.
pub open spec fn declare_ops(s: Seq<(FieldElement, Seq<u8>)>) -> Seq<ChainOpModel> {
    s.map_values(|p: (FieldElement, Seq<u8>)| ChainOpModel::Declare { casm_class_hash: p.0 })
}

/// The result of declaring a whole registry against a transcript: the first
/// rejection aborts the remaining declarations, a signing failure is
/// surfaced verbatim, and any other rejection names the artifact whose
/// declaration failed. "Already declared" counts as success.
pub open spec fn declare_result(
    s: Seq<(FieldElement, Seq<u8>)>,
    outcomes: Seq<SubmitOutcome>,
    start: int,
) -> Result<(), MigrationError> {
    match first_rejection(outcomes, start, s.len() as int) {
        None => Ok(()),
        Some(j) => match outcome_of(outcomes, start + j) {
            SubmitOutcome::Rejected(SubmitFailure::Signing) => Err(MigrationError::Signing),
            _ => Err(MigrationError::Declaration(s[j].0)),
        },
    }
}

/// An equal copy of a byte payload.
pub fn copy_bytes(v: &Vec<u8>) -> (r: Vec<u8>)
    ensures
        r@ == v@,
{
    let mut r: Vec<u8> = Vec::new();
    let mut i: usize = 0;
    while i < v.len()
        invariant
            i <= v@.len(),
            r@ =~= v@.take(i as int),
        decreases v@.len() - i,
    {
        r.push(v[i]);
        proof {
            assert(v@.take(i + 1) =~= v@.take(i as int).push(v@[i as int]));
        }
        i += 1;
    }
    proof {
        assert(v@.take(v@.len() as int) =~= v@);
    }
    r
}

/// Accumulates compiled artifacts, each keyed by its compiled-class hash,
/// and submits one declare operation per unique artifact.
pub struct Declarer {
    pub classes: Vec<(FieldElement, Vec<u8>)>,
}

impl Declarer {
    /// The registry as mathematics.
    pub open spec fn registry(&self) -> Seq<(FieldElement, Seq<u8>)> {
        registry_of(self.classes@)
    }

    /// No two entries carry the same hash.
    pub open spec fn wf(&self) -> bool {
        forall|i: int, j: int|
            0 <= i < j < self.classes@.len() ==> self.classes@[i].0 != self.classes@[j].0
    }

    /// An empty registry.
    pub fn new() -> (r: Declarer)
        ensures
            r.classes@ =~= Seq::<(FieldElement, Vec<u8>)>::empty(),
            r.wf(),
    {
        Declarer { classes: Vec::new() }
    }

    /// Idempotent insertion keyed by the compiled-class hash: re-adding a
    /// known hash changes nothing, since identifiers are content-derived and
    /// the payload for a given identifier is identical by construction.
    pub fn add_class(&mut self, casm_class_hash: FieldElement, artifact: Vec<u8>)
        ensures
            final(self).registry() == add_class_spec(
                old(self).registry(),
                casm_class_hash,
                artifact@,
            ),
            old(self).wf() ==> final(self).wf(),
    {
        let n = self.classes.len();
        let mut i: usize = 0;
        while i < n
            invariant
                n == self.classes@.len(),
                i <= n,
                *self == *old(self),
                forall|j: int| 0 <= j < i ==> self.classes@[j].0 != casm_class_hash,
            decreases n - i,
        {
            if self.classes[i].0 == casm_class_hash {
                proof {
                    assert(self.registry()[i as int].0 == casm_class_hash);
                    assert(has_class(self.registry(), casm_class_hash));
                }
                return ;
            }
            i += 1;
        }
        proof {
            assert forall|j: int| 0 <= j < self.registry().len() implies self.registry()[j].0
                != casm_class_hash by {
                assert(self.registry()[j].0 == self.classes@[j].0);
            }
            assert(!has_class(self.registry(), casm_class_hash));
        }
        let ghost prev = self.classes@;
        self.classes.push((casm_class_hash, artifact));
        proof {
            assert(self.classes@ == prev.push((casm_class_hash, artifact)));
            lemma_registry_push(prev, (casm_class_hash, artifact));
        }
    }

    /// Declare one artifact on its own, synchronously awaited: the world's
    /// own artifact is declared this way before the world is deployed.
    /// "Already declared" counts as success.
    pub fn declare(casm_class_hash: FieldElement, ex: &mut Executor) -> (r: Result<
        (),
        MigrationError,
    >)
        ensures
            final(ex).outcomes@ == old(ex).outcomes@,
            final(ex).log() == old(ex).log() + seq![
                ChainOpModel::Declare { casm_class_hash },
            ],
            r == (match outcome_of(old(ex).outcomes@, old(ex).ops@.len() as int) {
                SubmitOutcome::Rejected(SubmitFailure::Signing) => Err::<(), MigrationError>(
                    MigrationError::Signing,
                ),
                SubmitOutcome::Rejected(SubmitFailure::Reverted) => Err(
                    MigrationError::Declaration(casm_class_hash),
                ),
                _ => Ok(()),
            }),
    {
        let op = ChainOp::Declare { casm_class_hash };
        let ghost op0 = op;
        let ghost prev = ex.ops@;
        let oc = ex.submit(op);
        proof {
            assert(ex.ops@ == prev.push(op0));
            lemma_op_views_push(prev, op0);
            assert(ex.log() =~= old(ex).log() + seq![ChainOpModel::Declare { casm_class_hash }]);
        }
        match oc {
            SubmitOutcome::Rejected(SubmitFailure::Signing) => Err(MigrationError::Signing),
            SubmitOutcome::Rejected(SubmitFailure::Reverted) => Err(
                MigrationError::Declaration(casm_class_hash),
            ),
            _ => Ok(()),
        }
    }

    /// Submit one declare operation per registered artifact, in insertion
    /// order. The platform treats re-declaring a known artifact as success
    /// ("already declared"); the first genuine rejection aborts the
    /// remaining declarations without retry.
    pub fn declare_all(&self, ex: &mut Executor) -> (r: Result<(), MigrationError>)
        ensures
            final(ex).outcomes@ == old(ex).outcomes@,
            final(ex).log() == old(ex).log() + declare_ops(self.registry()).take(
                attempted_of(
                    old(ex).outcomes@,
                    old(ex).ops@.len() as int,
                    self.registry().len() as int,
                ),
            ),
            r == declare_result(self.registry(), old(ex).outcomes@, old(ex).ops@.len() as int),
    {
        let ghost all = self.registry();
        let ghost start = old(ex).ops@.len() as int;
        let ghost n = all.len() as int;
        let total: usize = self.classes.len();
        let mut i: usize = 0;
        while i < total
            invariant
                n == all.len() as int,
                all == self.registry(),
                total == all.len(),
                i <= total,
                ex.outcomes@ == old(ex).outcomes@,
                ex.ops@.len() as int == start + i,
                first_rejection(ex.outcomes@, start, i as int) is None,
                ex.log() =~= old(ex).log() + declare_ops(all).take(i as int),
            decreases total - i,
        {
            let h = self.classes[i].0;
            proof {
                assert(all[i as int].0 == h);
            }
            let op = ChainOp::Declare { casm_class_hash: h };
            let ghost op0 = op;
            let ghost prev_ops = ex.ops@;
            let oc = ex.submit(op);
            proof {
                assert(ex.ops@ == prev_ops.push(op0));
                lemma_op_views_push(prev_ops, op0);
                assert(declare_ops(all)[i as int] == op0@);
                assert(declare_ops(all).take(i + 1) =~= declare_ops(all).take(i as int).push(
                    op0@,
                ));
                assert(ex.log() =~= old(ex).log() + declare_ops(all).take(i + 1));
            }
            match oc {
                SubmitOutcome::Rejected(f) => {
                    proof {
                        lemma_first_rejection_found(ex.outcomes@, start, i as int, n);
                        assert(attempted_of(old(ex).outcomes@, start, n) == i + 1);
                        assert(outcome_of(old(ex).outcomes@, start + i) == SubmitOutcome::Rejected(
                            f,
                        ));
                    }
                    match f {
                        SubmitFailure::Signing => {
                            return Err(MigrationError::Signing);
                        },
                        SubmitFailure::Reverted => {
                            return Err(MigrationError::Declaration(h));
                        },
                    }
                },
                _ => {
                    proof {
                        lemma_first_rejection_extend(ex.outcomes@, start, i as int);
                    }
                },
            }
            i += 1;
        }
        Ok(())
    }
}

} // verus!
