use sozo_migrate::call::{Call, ChainOp, Executor, SubmitFailure, SubmitOutcome};
use sozo_migrate::diff::{
    ClassRemote, ClassResource, ContractRemote, NamespaceLocal, PermissionGrant, ResourceDiff,
    ResourceLocal, ResourceRemote, WorldDiff, WorldStatus,
};
use sozo_migrate::error::MigrationError;
use sozo_migrate::felt::FieldElement;
use sozo_migrate::migrate::{Migration, MigrationOptions, ProfileConfig, TxnConfig};

fn fe(lo: u64) -> FieldElement {
    FieldElement { hi: 0, lo: lo as u128 }
}

fn conv(f: starknet_crypto::Felt) -> FieldElement {
    let b = f.to_bytes_be();
    let mut hi = [0u8; 16];
    let mut lo = [0u8; 16];
    hi.copy_from_slice(&b[..16]);
    lo.copy_from_slice(&b[16..]);
    FieldElement { hi: u128::from_be_bytes(hi), lo: u128::from_be_bytes(lo) }
}

fn byte_array_felts(s: &str) -> Vec<FieldElement> {
    let ba = cainome_cairo_serde::ByteArray::from_string(s).unwrap();
    let felts =
        <cainome_cairo_serde::ByteArray as cainome_cairo_serde::CairoSerde>::cairo_serialize(&ba);
    felts.into_iter().map(conv).collect()
}

fn contract(tag: &str, ns: &str, sel: FieldElement, ch: FieldElement, casm: FieldElement) -> ClassResource {
    ClassResource {
        tag: tag.to_string(),
        namespace: ns.to_string(),
        selector: sel,
        class_hash: ch,
        casm_class_hash: casm,
        artifact: vec![1, 2, 3],
    }
}

fn sequential_config(writers: Vec<PermissionGrant>, init: Vec<(String, Vec<String>)>) -> ProfileConfig {
    ProfileConfig {
        world_seed: "seed".to_string(),
        migration: Some(MigrationOptions { disable_multicall: true }),
        init_call_args: init,
        writers,
        owners: vec![],
    }
}

fn txn() -> TxnConfig {
    TxnConfig { wait: true, receipt: false }
}

/// One created namespace, one created contract in it, a local writer grant
/// on the contract itself, no remote state: five operations in order, the
/// namespace registration before the contract registration.
#[test]
fn created_namespace_and_contract_emit_five_operations() {
    let world = fe(7);
    let ns_sel = fe(11);
    let c_sel = fe(22);
    let ch = fe(33);
    let casm = fe(44);
    let diff = WorldDiff {
        world_status: WorldStatus::Synced,
        namespaces: vec![ns_sel],
        resources: vec![
            (
                ns_sel,
                ResourceDiff::Created(ResourceLocal::Namespace(NamespaceLocal {
                    name: "ns".to_string(),
                    selector: ns_sel,
                })),
            ),
            (
                c_sel,
                ResourceDiff::Created(ResourceLocal::Contract(contract(
                    "ns-Actions",
                    "ns",
                    c_sel,
                    ch,
                    casm,
                ))),
            ),
        ],
        remote_writers: vec![],
        remote_owners: vec![],
    };
    let writers = vec![PermissionGrant {
        target_selector: c_sel,
        target_tag: "ns-Actions".to_string(),
        grantees: vec![(c_sel, "ns-Actions".to_string())],
    }];
    let m = Migration::new(diff, world, txn(), sequential_config(writers, vec![]));
    let mut ex = Executor::new(vec![]);
    let r = m.migrate(&mut ex);
    assert_eq!(r, Ok(world));
    assert_eq!(ex.ops.len(), 5);

    // The unique artifact is declared before any register call.
    assert_eq!(ex.ops[0], ChainOp::Declare { casm_class_hash: casm });

    // The namespace is registered before the contract that lives in it.
    let ns_call = Call {
        to: world,
        entrypoint: "register_namespace".to_string(),
        calldata: byte_array_felts("ns"),
    };
    assert_eq!(ex.ops[1], ChainOp::Invoke { call: ns_call });

    let mut reg_calldata = vec![c_sel];
    reg_calldata.extend(byte_array_felts("ns"));
    reg_calldata.push(ch);
    let reg_call = Call {
        to: world,
        entrypoint: "register_contract".to_string(),
        calldata: reg_calldata,
    };
    assert_eq!(ex.ops[2], ChainOp::Invoke { call: reg_call });

    // The grantee's address is the deterministic contract address: selector
    // as salt, class hash, no constructor calldata, world as deployer.
    let addr = conv(starknet_core::utils::get_contract_address(
        starknet_crypto::Felt::from(22u64),
        starknet_crypto::Felt::from(33u64),
        &[],
        starknet_crypto::Felt::from(7u64),
    ));
    let grant_call = Call {
        to: world,
        entrypoint: "grant_writer".to_string(),
        calldata: vec![c_sel, addr],
    };
    assert_eq!(ex.ops[3], ChainOp::Invoke { call: grant_call });

    // The created contract is initialized with an empty argument list.
    let init_call = Call {
        to: world,
        entrypoint: "init_contract".to_string(),
        calldata: vec![c_sel, fe(0)],
    };
    assert_eq!(ex.ops[4], ChainOp::Invoke { call: init_call });
}

/// Two created resources sharing the identical artifact identifier produce
/// exactly one declare operation.
#[test]
fn shared_artifact_is_declared_once() {
    let world = fe(7);
    let casm = fe(99);
    let m1 = ClassResource {
        tag: "ns-M1".to_string(),
        namespace: "ns".to_string(),
        selector: fe(1),
        class_hash: fe(51),
        casm_class_hash: casm,
        artifact: vec![9],
    };
    let m2 = ClassResource {
        tag: "ns-M2".to_string(),
        namespace: "ns".to_string(),
        selector: fe(2),
        class_hash: fe(52),
        casm_class_hash: casm,
        artifact: vec![9],
    };
    let diff = WorldDiff {
        world_status: WorldStatus::Synced,
        namespaces: vec![],
        resources: vec![
            (fe(1), ResourceDiff::Created(ResourceLocal::Model(m1))),
            (fe(2), ResourceDiff::Created(ResourceLocal::Model(m2))),
        ],
        remote_writers: vec![],
        remote_owners: vec![],
    };
    let m = Migration::new(diff, world, txn(), sequential_config(vec![], vec![]));
    let mut ex = Executor::new(vec![]);
    assert_eq!(m.migrate(&mut ex), Ok(world));
    let declares = ex
        .ops
        .iter()
        .filter(|op| matches!(op, ChainOp::Declare { .. }))
        .count();
    assert_eq!(declares, 1);
    // Both models are still registered.
    let invokes = ex
        .ops
        .iter()
        .filter(|op| matches!(op, ChainOp::Invoke { .. }))
        .count();
    assert_eq!(invokes, 2);
}

/// An updated contract whose remote record is already initialized gets no
/// initialization call.
#[test]
fn initialized_updated_contract_is_not_initialized_again() {
    let world = fe(7);
    let c_sel = fe(22);
    let local = contract("ns-A", "ns", c_sel, fe(34), fe(45));
    let remote = ContractRemote {
        tag: "ns-A".to_string(),
        selector: c_sel,
        class_hash: fe(33),
        original_class_hash: fe(33),
        is_initialized: true,
    };
    let diff = WorldDiff {
        world_status: WorldStatus::Synced,
        namespaces: vec![],
        resources: vec![(
            c_sel,
            ResourceDiff::Updated(
                ResourceLocal::Contract(local),
                ResourceRemote::Contract(remote),
            ),
        )],
        remote_writers: vec![],
        remote_owners: vec![],
    };
    let m = Migration::new(diff, world, txn(), sequential_config(vec![], vec![]));
    let mut ex = Executor::new(vec![]);
    assert_eq!(m.initialize_contracts(&mut ex), Ok(()));
    assert_eq!(ex.ops.len(), 0);
}

/// A local writer grant naming a grantee tag absent from the diff is a
/// configuration error, returned before any network operation.
#[test]
fn orphan_grantee_tag_aborts_before_any_call() {
    let world = fe(7);
    let diff = WorldDiff {
        world_status: WorldStatus::Synced,
        namespaces: vec![],
        resources: vec![(
            fe(5),
            ResourceDiff::Synced(ResourceRemote::Model(ClassRemote {
                selector: fe(5),
                class_hash: fe(50),
            })),
        )],
        remote_writers: vec![],
        remote_owners: vec![],
    };
    let writers = vec![PermissionGrant {
        target_selector: fe(5),
        target_tag: "ns-M".to_string(),
        grantees: vec![(fe(77), "ns-Ghost".to_string())],
    }];
    let m = Migration::new(diff, world, txn(), sequential_config(writers, vec![]));
    let mut ex = Executor::new(vec![]);
    let r = m.migrate(&mut ex);
    assert_eq!(
        r,
        Err(MigrationError::OrphanSelectorAddress("ns-Ghost".to_string()))
    );
    assert_eq!(ex.ops.len(), 0);
}

/// A synced resource produces no operation anywhere: a fully synced world
/// migrates with zero operations, which is what makes re-running safe.
#[test]
fn fully_synced_world_migrates_with_zero_operations() {
    let world = fe(7);
    let diff = WorldDiff {
        world_status: WorldStatus::Synced,
        namespaces: vec![],
        resources: vec![
            (
                fe(1),
                ResourceDiff::Synced(ResourceRemote::Contract(ContractRemote {
                    tag: "ns-A".to_string(),
                    selector: fe(1),
                    class_hash: fe(31),
                    original_class_hash: fe(31),
                    is_initialized: true,
                })),
            ),
            (
                fe(2),
                ResourceDiff::Synced(ResourceRemote::Event(ClassRemote {
                    selector: fe(2),
                    class_hash: fe(32),
                })),
            ),
        ],
        remote_writers: vec![],
        remote_owners: vec![],
    };
    let m = Migration::new(diff, world, txn(), sequential_config(vec![], vec![]));
    let mut ex = Executor::new(vec![]);
    assert_eq!(m.migrate(&mut ex), Ok(world));
    assert_eq!(ex.ops.len(), 0);
}

/// A grant already present remotely is never proposed again.
#[test]
fn present_remote_grant_is_not_regranted() {
    let world = fe(7);
    let c_sel = fe(22);
    let addr = conv(starknet_core::utils::get_contract_address(
        starknet_crypto::Felt::from(22u64),
        starknet_crypto::Felt::from(31u64),
        &[],
        starknet_crypto::Felt::from(7u64),
    ));
    let diff = WorldDiff {
        world_status: WorldStatus::Synced,
        namespaces: vec![],
        resources: vec![(
            c_sel,
            ResourceDiff::Synced(ResourceRemote::Contract(ContractRemote {
                tag: "ns-A".to_string(),
                selector: c_sel,
                class_hash: fe(31),
                original_class_hash: fe(31),
                is_initialized: true,
            })),
        )],
        remote_writers: vec![(c_sel, vec![addr])],
        remote_owners: vec![],
    };
    let writers = vec![PermissionGrant {
        target_selector: c_sel,
        target_tag: "ns-A".to_string(),
        grantees: vec![(c_sel, "ns-A".to_string())],
    }];
    let m = Migration::new(diff, world, txn(), sequential_config(writers, vec![]));
    let mut ex = Executor::new(vec![]);
    assert_eq!(m.sync_permissions(&mut ex), Ok(()));
    assert_eq!(ex.ops.len(), 0);
}

/// A malformed configured initialization argument is fatal and reported
/// with the offending value, before any call of the phase.
#[test]
fn malformed_init_argument_is_fatal() {
    let world = fe(7);
    let c_sel = fe(22);
    let diff = WorldDiff {
        world_status: WorldStatus::Synced,
        namespaces: vec![],
        resources: vec![(
            c_sel,
            ResourceDiff::Created(ResourceLocal::Contract(contract(
                "ns-A",
                "ns",
                c_sel,
                fe(31),
                fe(41),
            ))),
        )],
        remote_writers: vec![],
        remote_owners: vec![],
    };
    let init = vec![(
        "ns-A".to_string(),
        vec!["12".to_string(), "not a number".to_string()],
    )];
    let m = Migration::new(diff, world, txn(), sequential_config(vec![], init));
    let mut ex = Executor::new(vec![]);
    let r = m.initialize_contracts(&mut ex);
    assert_eq!(r, Err(MigrationError::InitArgParse("not a number".to_string())));
    assert_eq!(ex.ops.len(), 0);
}

/// Configured initialization arguments are parsed as decimal or hex field
/// elements and passed after the argument count.
#[test]
fn init_arguments_are_parsed_and_counted() {
    let world = fe(7);
    let c_sel = fe(22);
    let diff = WorldDiff {
        world_status: WorldStatus::Synced,
        namespaces: vec![],
        resources: vec![(
            c_sel,
            ResourceDiff::Created(ResourceLocal::Contract(contract(
                "ns-A",
                "ns",
                c_sel,
                fe(31),
                fe(41),
            ))),
        )],
        remote_writers: vec![],
        remote_owners: vec![],
    };
    let init = vec![("ns-A".to_string(), vec!["12".to_string(), "0xff".to_string()])];
    let m = Migration::new(diff, world, txn(), sequential_config(vec![], init));
    let mut ex = Executor::new(vec![]);
    assert_eq!(m.initialize_contracts(&mut ex), Ok(()));
    assert_eq!(ex.ops.len(), 1);
    let expected = Call {
        to: world,
        entrypoint: "init_contract".to_string(),
        calldata: vec![c_sel, fe(2), fe(12), fe(255)],
    };
    assert_eq!(ex.ops[0], ChainOp::Invoke { call: expected });
}

/// A world that is not deployed and carries no class information is a
/// fatal configuration error.
#[test]
fn world_without_class_cannot_be_deployed() {
    let world = fe(7);
    let diff = WorldDiff {
        world_status: WorldStatus::NotDeployed,
        namespaces: vec![],
        resources: vec![],
        remote_writers: vec![],
        remote_owners: vec![],
    };
    let m = Migration::new(diff, world, txn(), sequential_config(vec![], vec![]));
    let mut ex = Executor::new(vec![]);
    assert_eq!(m.migrate(&mut ex), Err(MigrationError::MissingWorldClass));
    assert_eq!(ex.ops.len(), 0);
}

/// A world seed that does not pack into a 31-byte short string is a fatal
/// configuration error.
#[test]
fn oversized_world_seed_is_rejected() {
    let world = fe(7);
    let diff = WorldDiff {
        world_status: WorldStatus::NewVersion(fe(31), fe(41), vec![1]),
        namespaces: vec![],
        resources: vec![],
        remote_writers: vec![],
        remote_owners: vec![],
    };
    let seed = "a-seed-that-is-much-longer-than-thirty-one-bytes".to_string();
    let config = ProfileConfig {
        world_seed: seed.clone(),
        migration: None,
        init_call_args: vec![],
        writers: vec![],
        owners: vec![],
    };
    let m = Migration::new(diff, world, txn(), config);
    let mut ex = Executor::new(vec![]);
    assert_eq!(m.migrate(&mut ex), Err(MigrationError::InvalidWorldSeed(seed)));
    assert_eq!(ex.ops.len(), 0);
}

/// With multicall enabled — the default — each phase's calls go out as one
/// atomic batch: the same scenario as the five-operation run collapses to
/// one declare and three multicalls, the namespace call still ordered
/// before the contract call inside the resource batch.
#[test]
fn multicall_mode_batches_each_phase() {
    let world = fe(7);
    let ns_sel = fe(11);
    let c_sel = fe(22);
    let ch = fe(33);
    let casm = fe(44);
    let diff = WorldDiff {
        world_status: WorldStatus::Synced,
        namespaces: vec![ns_sel],
        resources: vec![
            (
                ns_sel,
                ResourceDiff::Created(ResourceLocal::Namespace(NamespaceLocal {
                    name: "ns".to_string(),
                    selector: ns_sel,
                })),
            ),
            (
                c_sel,
                ResourceDiff::Created(ResourceLocal::Contract(contract(
                    "ns-Actions",
                    "ns",
                    c_sel,
                    ch,
                    casm,
                ))),
            ),
        ],
        remote_writers: vec![],
        remote_owners: vec![],
    };
    let writers = vec![PermissionGrant {
        target_selector: c_sel,
        target_tag: "ns-Actions".to_string(),
        grantees: vec![(c_sel, "ns-Actions".to_string())],
    }];
    let config = ProfileConfig {
        world_seed: "seed".to_string(),
        migration: None,
        init_call_args: vec![],
        writers,
        owners: vec![],
    };
    let m = Migration::new(diff, world, txn(), config);
    let mut ex = Executor::new(vec![]);
    assert_eq!(m.migrate(&mut ex), Ok(world));
    assert_eq!(ex.ops.len(), 4);
    assert_eq!(ex.ops[0], ChainOp::Declare { casm_class_hash: casm });
    match &ex.ops[1] {
        ChainOp::Multicall { calls } => {
            assert_eq!(calls.len(), 2);
            assert_eq!(calls[0].entrypoint, "register_namespace");
            assert_eq!(calls[1].entrypoint, "register_contract");
        }
        other => panic!("unexpected operation {:?}", other),
    }
    match &ex.ops[2] {
        ChainOp::Multicall { calls } => {
            assert_eq!(calls.len(), 1);
            assert_eq!(calls[0].entrypoint, "grant_writer");
        }
        other => panic!("unexpected operation {:?}", other),
    }
    match &ex.ops[3] {
        ChainOp::Multicall { calls } => {
            assert_eq!(calls.len(), 1);
            assert_eq!(calls[0].entrypoint, "init_contract");
        }
        other => panic!("unexpected operation {:?}", other),
    }
}

/// Well-formedness is decidable: duplicate resource keys, a key that
/// disagrees with its resource's selector, and a namespace missing from
/// the map are all detected.
#[test]
fn well_formedness_check_detects_malformed_diffs() {
    let good = WorldDiff {
        world_status: WorldStatus::Synced,
        namespaces: vec![fe(1)],
        resources: vec![(
            fe(1),
            ResourceDiff::Created(ResourceLocal::Namespace(NamespaceLocal {
                name: "ns".to_string(),
                selector: fe(1),
            })),
        )],
        remote_writers: vec![],
        remote_owners: vec![],
    };
    assert!(good.check_wf());

    let missing_namespace = WorldDiff {
        world_status: WorldStatus::Synced,
        namespaces: vec![fe(9)],
        resources: vec![],
        remote_writers: vec![],
        remote_owners: vec![],
    };
    assert!(!missing_namespace.check_wf());

    let ns = |sel: FieldElement| {
        ResourceDiff::Created(ResourceLocal::Namespace(NamespaceLocal {
            name: "ns".to_string(),
            selector: sel,
        }))
    };
    let duplicate_keys = WorldDiff {
        world_status: WorldStatus::Synced,
        namespaces: vec![],
        resources: vec![(fe(1), ns(fe(1))), (fe(1), ns(fe(1)))],
        remote_writers: vec![],
        remote_owners: vec![],
    };
    assert!(!duplicate_keys.check_wf());

    let selector_mismatch = WorldDiff {
        world_status: WorldStatus::Synced,
        namespaces: vec![],
        resources: vec![(fe(1), ns(fe(2)))],
        remote_writers: vec![],
        remote_owners: vec![],
    };
    assert!(!selector_mismatch.check_wf());
}

/// A signing failure from the submitter is surfaced verbatim.
#[test]
fn signing_failure_is_surfaced() {
    let world = fe(7);
    let diff = WorldDiff {
        world_status: WorldStatus::Synced,
        namespaces: vec![],
        resources: vec![(
            fe(1),
            ResourceDiff::Created(ResourceLocal::Model(ClassResource {
                tag: "ns-M".to_string(),
                namespace: "ns".to_string(),
                selector: fe(1),
                class_hash: fe(51),
                casm_class_hash: fe(61),
                artifact: vec![9],
            })),
        )],
        remote_writers: vec![],
        remote_owners: vec![],
    };
    let m = Migration::new(diff, world, txn(), sequential_config(vec![], vec![]));
    let mut ex = Executor::new(vec![SubmitOutcome::Rejected(SubmitFailure::Signing)]);
    assert_eq!(m.migrate(&mut ex), Err(MigrationError::Signing));
    assert_eq!(ex.ops.len(), 1);
}
