use sozo_migrate::call::{Call, ChainOp, Executor, SubmitFailure, SubmitOutcome};
use sozo_migrate::declarer::Declarer;
use sozo_migrate::deployer::deploy_via_udc;
use sozo_migrate::error::MigrationError;
use sozo_migrate::felt::FieldElement;
use sozo_migrate::invoker::Invoker;

fn fe(lo: u64) -> FieldElement {
    FieldElement { hi: 0, lo: lo as u128 }
}

fn conv(f: starknet_crypto::Felt) -> FieldElement {
    let b = f.to_bytes_be();
    let mut hi = [0u8; 16];
    let mut lo = [0u8; 16];
    hi.copy_from_slice(&b[..16]);
    lo.copy_from_slice(&b[16..]);
    FieldElement { hi: u128::from_be_bytes(hi), lo: u128::from_be_bytes(lo) }
}

fn call(n: u64) -> Call {
    Call { to: fe(1), entrypoint: "do_something".to_string(), calldata: vec![fe(n)] }
}

/// An atomic batch goes out as one multicall operation and fails as a
/// unit: a rejection commits none of its calls.
#[test]
fn atomic_batch_fails_as_a_unit() {
    let mut invoker = Invoker::new();
    invoker.add_call(call(1));
    invoker.add_call(call(2));
    let mut ex = Executor::new(vec![SubmitOutcome::Rejected(SubmitFailure::Reverted)]);
    let r = invoker.multicall(&mut ex);
    assert_eq!(r, Err(MigrationError::Execution { failed: 0, committed: 0 }));
    assert_eq!(ex.ops.len(), 1);
    assert_eq!(
        ex.ops[0],
        ChainOp::Multicall { calls: vec![call(1), call(2)] }
    );
}

/// An empty accumulation executes as a trivial success and submits
/// nothing, in both modes.
#[test]
fn empty_batch_is_a_trivial_success() {
    let invoker = Invoker::new();
    let mut ex = Executor::new(vec![]);
    assert_eq!(invoker.multicall(&mut ex), Ok(()));
    let invoker2 = Invoker::new();
    assert_eq!(invoker2.invoke_all_sequentially(&mut ex), Ok(()));
    assert_eq!(ex.ops.len(), 0);
}

/// A sequential run submits one transaction per call in insertion order;
/// the first failure aborts the remaining calls and reports which call
/// failed and how many before it had already been committed.
#[test]
fn sequential_failure_commits_exactly_the_prefix() {
    let mut invoker = Invoker::new();
    invoker.add_call(call(1));
    invoker.add_call(call(2));
    invoker.add_call(call(3));
    let mut ex = Executor::new(vec![
        SubmitOutcome::Accepted,
        SubmitOutcome::Rejected(SubmitFailure::Reverted),
        SubmitOutcome::Accepted,
    ]);
    let r = invoker.invoke_all_sequentially(&mut ex);
    assert_eq!(r, Err(MigrationError::Execution { failed: 1, committed: 1 }));
    // The third call was never submitted.
    assert_eq!(ex.ops.len(), 2);
    assert_eq!(ex.ops[0], ChainOp::Invoke { call: call(1) });
    assert_eq!(ex.ops[1], ChainOp::Invoke { call: call(2) });
}

/// Re-adding an artifact under a known content identifier is a no-op.
#[test]
fn declarer_insertion_is_idempotent() {
    let mut d = Declarer::new();
    d.add_class(fe(9), vec![1, 2]);
    d.add_class(fe(9), vec![1, 2]);
    d.add_class(fe(8), vec![3]);
    assert_eq!(d.classes.len(), 2);
    assert_eq!(d.classes[0].0, fe(9));
    assert_eq!(d.classes[1].0, fe(8));
}

/// The platform's "already declared" answer counts as success.
#[test]
fn already_declared_counts_as_success() {
    let mut d = Declarer::new();
    d.add_class(fe(9), vec![1]);
    d.add_class(fe(8), vec![2]);
    let mut ex = Executor::new(vec![SubmitOutcome::AlreadyDeclared, SubmitOutcome::Accepted]);
    assert_eq!(d.declare_all(&mut ex), Ok(()));
    assert_eq!(ex.ops.len(), 2);
}

/// A rejected declaration aborts the remaining declarations and names the
/// artifact whose declaration failed.
#[test]
fn failed_declaration_aborts_the_rest() {
    let mut d = Declarer::new();
    d.add_class(fe(9), vec![1]);
    d.add_class(fe(8), vec![2]);
    let mut ex = Executor::new(vec![SubmitOutcome::Rejected(SubmitFailure::Reverted)]);
    assert_eq!(d.declare_all(&mut ex), Err(MigrationError::Declaration(fe(9))));
    assert_eq!(ex.ops.len(), 1);
}

/// The deployer predicts the address that the platform's own derivation
/// yields for a non-unique deployment through the universal deployer.
#[test]
fn deployment_address_matches_the_platform_derivation() {
    let class_hash = fe(1234);
    let salt = fe(5678);
    let ctor = vec![fe(1), fe(2)];
    let mut ex = Executor::new(vec![]);
    let got = deploy_via_udc(&mut ex, class_hash, salt, &ctor, FieldElement { hi: 0, lo: 0 })
        .unwrap();
    let expected = conv(starknet_core::utils::get_udc_deployed_address(
        starknet_crypto::Felt::from(5678u64),
        starknet_crypto::Felt::from(1234u64),
        &starknet_core::utils::UdcUniqueness::NotUnique,
        &[starknet_crypto::Felt::from(1u64), starknet_crypto::Felt::from(2u64)],
    ));
    assert_eq!(got, expected);
}

/// The factory call goes to the universal deployer's well-known address
/// with the documented calldata layout, and a reverted deployment is a
/// distinct error carrying the predicted address.
#[test]
fn deployment_call_shape_and_failure() {
    let class_hash = fe(1234);
    let salt = fe(5678);
    let ctor = vec![fe(9)];
    let mut ex = Executor::new(vec![SubmitOutcome::Rejected(SubmitFailure::Reverted)]);
    let r = deploy_via_udc(&mut ex, class_hash, salt, &ctor, FieldElement { hi: 0, lo: 0 });
    let predicted = conv(starknet_core::utils::get_udc_deployed_address(
        starknet_crypto::Felt::from(5678u64),
        starknet_crypto::Felt::from(1234u64),
        &starknet_core::utils::UdcUniqueness::NotUnique,
        &[starknet_crypto::Felt::from(9u64)],
    ));
    assert_eq!(r, Err(MigrationError::Deployment(predicted)));
    assert_eq!(ex.ops.len(), 1);
    let udc = conv(
        starknet_crypto::Felt::from_hex(
            "0x041a78e741e5af2fec34b695679bc6891742439f7afb8484ecd7766661ad02bf",
        )
        .unwrap(),
    );
    match &ex.ops[0] {
        ChainOp::Invoke { call } => {
            assert_eq!(call.to, udc);
            assert_eq!(call.entrypoint, "deployContract");
            assert_eq!(call.calldata, vec![class_hash, salt, fe(0), fe(1), fe(9)]);
        }
        other => panic!("unexpected operation {:?}", other),
    }
}
