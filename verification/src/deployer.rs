//! The deployer: computes the deterministic address of a factory deployment
//! and submits the factory call through the universal deployer contract.

use vstd::prelude::*;

use crate::call::{
    lemma_op_views_push, outcome_of, Call, CallModel, ChainOp, ChainOpModel, Executor,
    SubmitFailure, SubmitOutcome,
};
use crate::chain::{compute_contract_address, deployed_address};
use crate::error::MigrationError;
use crate::felt::FieldElement;

verus! {

/// The universal deployer contract's well-known address.
pub open spec fn spec_udc_address() -> FieldElement {
    FieldElement { hi: 0x041a78e741e5af2fec34b695679bc689, lo: 0x1742439f7afb8484ecd7766661ad02bf }
}

/// The contract a factory call goes to: the given override, or the
/// universal deployer's well-known address where the override is zero.
pub open spec fn spec_factory_address(udc: FieldElement) -> FieldElement {
    if udc == (FieldElement { hi: 0, lo: 0 }) {
        spec_udc_address()
    } else {
        udc
    }
}

/// The factory call of a non-unique deployment:
/// `deployContract(class_hash, salt, unique = 0, calldata_len, calldata...)`.
pub open spec fn deploy_call_model(
    class_hash: FieldElement,
    salt: FieldElement,
    calldata: Seq<FieldElement>,
    udc: FieldElement,
) -> CallModel {
    CallModel {
        to: spec_factory_address(udc),
        entrypoint: "deployContract"@,
        calldata: seq![
            class_hash,
            salt,
            FieldElement { hi: 0, lo: 0 },
            FieldElement { hi: 0, lo: calldata.len() as u128 },
        ] + calldata,
    }
}

/// The address a non-unique factory deployment lands on: independent of the
/// deploying account, so derived with a zero deployer address.
pub open spec fn deploy_address_model(
    class_hash: FieldElement,
    salt: FieldElement,
    calldata: Seq<FieldElement>,
) -> FieldElement {
    deployed_address(salt, class_hash, calldata, FieldElement { hi: 0, lo: 0 })
}

/// The one operation a deployment submits.
pub open spec fn deploy_ops(
    class_hash: FieldElement,
    salt: FieldElement,
    calldata: Seq<FieldElement>,
    udc: FieldElement,
) -> Seq<ChainOpModel> {
    seq![ChainOpModel::Invoke { call: deploy_call_model(class_hash, salt, calldata, udc) }]
}

/// The result of a deployment against a transcript: success carries the
/// deterministic address, a reverted factory call — e.g. something already
/// deployed at that address — becomes a distinct deployment error carrying
/// that address, and a signing failure is surfaced verbatim.
pub open spec fn deploy_result(
    class_hash: FieldElement,
    salt: FieldElement,
    calldata: Seq<FieldElement>,
    outcomes: Seq<SubmitOutcome>,
    start: int,
) -> Result<FieldElement, MigrationError> {
    match outcome_of(outcomes, start) {
        SubmitOutcome::Rejected(SubmitFailure::Signing) => Err(MigrationError::Signing),
        SubmitOutcome::Rejected(SubmitFailure::Reverted) => Err(
            MigrationError::Deployment(deploy_address_model(class_hash, salt, calldata)),
        ),
        _ => Ok(deploy_address_model(class_hash, salt, calldata)),
    }
}

/// The universal deployer's address as a value.
pub fn udc_address() -> (r: FieldElement)
    ensures
        r == spec_udc_address(),
{
    FieldElement {
        hi: 0x041a78e741e5af2fec34b695679bc689u128,
        lo: 0x1742439f7afb8484ecd7766661ad02bfu128,
    }
}

/// Compute the deterministic deployment address and submit the factory
/// call; success means the contract now exists at that address. A zero
/// `udc` selects the default universal deployer.
pub fn deploy_via_udc(
    ex: &mut Executor,
    class_hash: FieldElement,
    salt: FieldElement,
    constructor_calldata: &Vec<FieldElement>,
    udc: FieldElement,
) -> (r: Result<FieldElement, MigrationError>)
    ensures
        final(ex).outcomes@ == old(ex).outcomes@,
        final(ex).log() == old(ex).log() + deploy_ops(class_hash, salt, constructor_calldata@, udc),
        r == deploy_result(
            class_hash,
            salt,
            constructor_calldata@,
            old(ex).outcomes@,
            old(ex).ops@.len() as int,
        ),
{
    let zero = FieldElement::zero();
    let addr = compute_contract_address(&salt, &class_hash, constructor_calldata, &zero);
    let to = if udc.hi == 0 && udc.lo == 0 {
        udc_address()
    } else {
        udc
    };
    let n: usize = constructor_calldata.len();
    let mut calldata: Vec<FieldElement> = Vec::new();
    calldata.push(class_hash);
    calldata.push(salt);
    calldata.push(FieldElement::zero());
    calldata.push(FieldElement { hi: 0, lo: n as u128 });
    let ghost head = calldata@;
    let mut k: usize = 0;
    while k < n
        invariant
            n == constructor_calldata@.len(),
            k <= n,
            calldata@ =~= head + constructor_calldata@.take(k as int),
        decreases n - k,
    {
        calldata.push(constructor_calldata[k]);
        proof {
            assert(constructor_calldata@.take(k + 1) =~= constructor_calldata@.take(
                k as int,
            ).push(constructor_calldata@[k as int]));
        }
        k += 1;
    }
    let call = Call { to, entrypoint: "deployContract".to_owned(), calldata };
    proof {
        assert(constructor_calldata@.take(n as int) =~= constructor_calldata@);
        assert(call@.calldata =~= deploy_call_model(
            class_hash,
            salt,
            constructor_calldata@,
            udc,
        ).calldata);
        assert(call@ == deploy_call_model(class_hash, salt, constructor_calldata@, udc));
    }
    let op = ChainOp::Invoke { call };
    let ghost op0 = op;
    let ghost prev = ex.ops@;
    let oc = ex.submit(op);
    proof {
        assert(ex.ops@ == prev.push(op0));
        lemma_op_views_push(prev, op0);
        assert(ex.log() =~= old(ex).log() + deploy_ops(class_hash, salt, constructor_calldata@, udc));
    }
    match oc {
        SubmitOutcome::Rejected(SubmitFailure::Signing) => Err(MigrationError::Signing),
        SubmitOutcome::Rejected(SubmitFailure::Reverted) => Err(MigrationError::Deployment(addr)),
        _ => Ok(addr),
    }
}

} // verus!
