//! The migration orchestrator: four strictly ordered phases against one
//! resource diff.
//!
//! 1. Ensure the world itself is declared and deployed where its own class
//!    changed.
//! 2. Sync the resources: register namespaces first, then declare every
//!    unique artifact, and only then register or upgrade contracts, models
//!    and events.
//! 3. Sync the permissions: grant what is declared locally and missing
//!    remotely, writers before owners, and revoke nothing.
//! 4. Initialize every eligible contract with its configured arguments.
//!
//! Each phase's calls are executed at the end of that phase; any error
//! aborts the remaining phases. Re-running a migration is safe because the
//! diff is recomputed against the remote state each time, and synced
//! resources produce no operations.

use vstd::prelude::*;
use vstd::utf8::is_ascii_chars;

use crate::call::{
    accepted, attempted_of, call_views, first_rejection, lemma_call_views_push, outcome_of, Call,
    CallModel, ChainOpModel, Executor, SubmitFailure, SubmitOutcome,
};
use crate::chain::{
    byte_array_encoding, cairo_short_string, encode_byte_array, parse_felt, parsed_felt,
    poseidon_hash_one, poseidon_single, short_string_felt,
};
use crate::declarer::{add_class_spec, copy_bytes, declare_ops, declare_result, has_class, Declarer};
use crate::deployer::{deploy_ops, deploy_result, deploy_via_udc};
use crate::diff::{
    contract_addresses_of, find_entry, seq_has_key, seq_lookup, ClassResource, ResourceDiff,
    ResourceKind, ResourceLocal, ResourceRemote, WorldDiff, WorldStatus,
};
use crate::error::MigrationError;
use crate::felt::FieldElement;
use crate::invoker::{batch_ops_m, batch_result_m, invoke_ops_m, lemma_batch_views, Invoker};
use crate::permissions::{grant_calls, missing_grants};

verus! {

/// The transaction confirmation policy the submitter applies to each
/// operation: whether to wait for the receipt, and whether to fetch it.
#[derive(PartialEq, Eq, Clone, Copy, Debug)]
pub struct TxnConfig {
    pub wait: bool,
    pub receipt: bool,
}

/// Migration options of the profile configuration.
#[derive(PartialEq, Eq, Clone, Copy, Debug)]
pub struct MigrationOptions {
    pub disable_multicall: bool,
}

/// The profile configuration the orchestrator reads: the seed the world's
/// deployment salt derives from, the migration options, initialization
/// arguments per contract tag (an absent entry means an empty argument
/// list), and the locally declared writer and owner grants.
#[derive(PartialEq, Eq, Debug)]
pub struct ProfileConfig {
    pub world_seed: String,
    pub migration: Option<MigrationOptions>,
    pub init_call_args: Vec<(String, Vec<String>)>,
    pub writers: Vec<crate::diff::PermissionGrant>,
    pub owners: Vec<crate::diff::PermissionGrant>,
}

/// One migration run: a diff, the world's address, and the configuration.
/// The diff is owned for the duration of the run and never mutated.
pub struct Migration {
    pub diff: WorldDiff,
    pub world_address: FieldElement,
    pub txn_config: TxnConfig,
    pub profile_config: ProfileConfig,
}

/// The deployment salt a world seed derives to: the Poseidon hash of the
/// seed packed as a short string; a seed that is not ASCII or longer than
/// 31 bytes derives to nothing and is a configuration error.
pub open spec fn world_salt_of(seed: Seq<char>) -> Option<FieldElement> {
    if is_ascii_chars(seed) && seed.len() <= 31 {
        Some(poseidon_single(short_string_felt(seed)))
    } else {
        None
    }
}

/// Derive the deployment salt from the configured seed.
pub fn world_salt(seed: &str) -> (r: Option<FieldElement>)
    ensures
        r == world_salt_of(seed@),
{
    match cairo_short_string(seed) {
        Some(f) => Some(poseidon_hash_one(&f)),
        None => None,
    }
}

/// The operations of the ensure-world phase: where the world's own class
/// changed, its artifact is declared, synchronously awaited, and a factory
/// deployment follows; a rejected declaration stops before the deployment.
pub open spec fn phase1_ops(
    m: &Migration,
    outcomes: Seq<SubmitOutcome>,
    start: int,
) -> Seq<ChainOpModel> {
    match m.diff.world_status {
        WorldStatus::NewVersion(class_hash, casm_class_hash, _) => match world_salt_of(
            m.profile_config.world_seed@,
        ) {
            None => Seq::empty(),
            Some(salt) => {
                let dop = ChainOpModel::Declare { casm_class_hash };
                if accepted(outcome_of(outcomes, start)) {
                    seq![dop] + deploy_ops(
                        class_hash,
                        salt,
                        seq![class_hash],
                        FieldElement { hi: 0, lo: 0 },
                    )
                } else {
                    seq![dop]
                }
            },
        },
        _ => Seq::empty(),
    }
}

/// The result of the ensure-world phase: a no-op for a synced world, a
/// configuration error for a world that is not deployed and has no class to
/// deploy or whose seed derives no salt, and otherwise the declaration
/// followed by the deployment.
pub open spec fn phase1_result(
    m: &Migration,
    outcomes: Seq<SubmitOutcome>,
    start: int,
) -> Result<(), MigrationError> {
    match m.diff.world_status {
        WorldStatus::Synced => Ok(()),
        WorldStatus::NotDeployed => Err(MigrationError::MissingWorldClass),
        WorldStatus::NewVersion(class_hash, casm_class_hash, _) => match world_salt_of(
            m.profile_config.world_seed@,
        ) {
            None => Err(MigrationError::InvalidWorldSeed(m.profile_config.world_seed)),
            Some(salt) => match outcome_of(outcomes, start) {
                SubmitOutcome::Rejected(SubmitFailure::Signing) => Err(MigrationError::Signing),
                SubmitOutcome::Rejected(SubmitFailure::Reverted) => Err(
                    MigrationError::Declaration(casm_class_hash),
                ),
                _ => match deploy_result(
                    class_hash,
                    salt,
                    seq![class_hash],
                    outcomes,
                    start + 1,
                ) {
                    Ok(_) => Ok(()),
                    Err(e) => Err(e),
                },
            },
        },
    }
}

/// A call registering a created namespace under its name.
pub open spec fn register_namespace_call(world: FieldElement, name: Seq<char>) -> CallModel {
    CallModel { to: world, entrypoint: "register_namespace"@, calldata: byte_array_encoding(name) }
}

/// A register or upgrade call for a model or event, or an upgrade call for
/// a contract: the namespace as `ByteArray` calldata, then the class hash.
pub open spec fn class_call(world: FieldElement, ep: Seq<char>, c: ClassResource) -> CallModel {
    CallModel {
        to: world,
        entrypoint: ep,
        calldata: byte_array_encoding(c.namespace@) + seq![c.class_hash],
    }
}

/// The call registering a created contract: its selector, the namespace as
/// `ByteArray` calldata, and the class hash.
pub open spec fn register_contract_call(world: FieldElement, c: ClassResource) -> CallModel {
    CallModel {
        to: world,
        entrypoint: "register_contract"@,
        calldata: seq![c.selector] + byte_array_encoding(c.namespace@) + seq![c.class_hash],
    }
}

/// The register or upgrade call of one diffed resource: a created resource
/// is registered, an updated one upgraded, and a synced resource — or a
/// namespace, which the namespace pass already handled — emits nothing.
pub open spec fn resource_calls_of(world: FieldElement, d: ResourceDiff) -> Seq<CallModel> {
    match d {
        ResourceDiff::Created(ResourceLocal::Contract(c)) => seq![
            register_contract_call(world, c),
        ],
        ResourceDiff::Created(ResourceLocal::Model(c)) => seq![
            class_call(world, "register_model"@, c),
        ],
        ResourceDiff::Created(ResourceLocal::Event(c)) => seq![
            class_call(world, "register_event"@, c),
        ],
        ResourceDiff::Updated(ResourceLocal::Contract(c), _) => seq![
            class_call(world, "upgrade_contract"@, c),
        ],
        ResourceDiff::Updated(ResourceLocal::Model(c), _) => seq![
            class_call(world, "upgrade_model"@, c),
        ],
        ResourceDiff::Updated(ResourceLocal::Event(c), _) => seq![
            class_call(world, "upgrade_event"@, c),
        ],
        _ => Seq::empty(),
    }
}

/// The artifact one diffed resource sends to the declarer: created and
/// updated code-backed resources contribute theirs, everything else none.
pub open spec fn resource_class_of(d: ResourceDiff) -> Option<(FieldElement, Seq<u8>)> {
    match d {
        ResourceDiff::Created(ResourceLocal::Contract(c)) => Some((c.casm_class_hash, c.artifact@)),
        ResourceDiff::Created(ResourceLocal::Model(c)) => Some((c.casm_class_hash, c.artifact@)),
        ResourceDiff::Created(ResourceLocal::Event(c)) => Some((c.casm_class_hash, c.artifact@)),
        ResourceDiff::Updated(ResourceLocal::Contract(c), _) => Some(
            (c.casm_class_hash, c.artifact@),
        ),
        ResourceDiff::Updated(ResourceLocal::Model(c), _) => Some(
            (c.casm_class_hash, c.artifact@),
        ),
        ResourceDiff::Updated(ResourceLocal::Event(c), _) => Some(
            (c.casm_class_hash, c.artifact@),
        ),
        _ => None,
    }
}

/// All register and upgrade calls of the resource walk, in map order.
pub open spec fn resources_calls(
    world: FieldElement,
    s: Seq<(FieldElement, ResourceDiff)>,
) -> Seq<CallModel>
    decreases s.len(),
{
    if s.len() == 0 {
        Seq::empty()
    } else {
        resources_calls(world, s.drop_last()) + resource_calls_of(world, s.last().1)
    }
}

/// The declarer's registry after the resource walk: each artifact inserted
/// once, keyed by its compiled-class hash, first occurrence first.
pub open spec fn classes_of(s: Seq<(FieldElement, ResourceDiff)>) -> Seq<(FieldElement, Seq<u8>)>
    decreases s.len(),
{
    if s.len() == 0 {
        Seq::empty()
    } else {
        match resource_class_of(s.last().1) {
            Some(p) => add_class_spec(classes_of(s.drop_last()), p.0, p.1),
            None => classes_of(s.drop_last()),
        }
    }
}

/// The registration call of one listed namespace: only a namespace that is
/// created — absent remotely — is registered; an existing namespace is
/// immutable once registered and emits nothing.
pub open spec fn namespace_call_of(world: FieldElement, d: Option<ResourceDiff>) -> Seq<
    CallModel,
> {
    match d {
        Some(ResourceDiff::Created(ResourceLocal::Namespace(n))) => seq![
            register_namespace_call(world, n.name@),
        ],
        _ => Seq::empty(),
    }
}

/// The namespace registration calls, in the order the diff lists the
/// namespace selectors; they precede every other resource call.
pub open spec fn namespaces_calls(
    world: FieldElement,
    ns: Seq<FieldElement>,
    resources: Seq<(FieldElement, ResourceDiff)>,
) -> Seq<CallModel>
    decreases ns.len(),
{
    if ns.len() == 0 {
        Seq::empty()
    } else {
        namespaces_calls(world, ns.drop_last(), resources) + namespace_call_of(
            world,
            seq_lookup(resources, ns.last()),
        )
    }
}

/// Every call of the resource-sync phase: namespace registrations first,
/// then the register and upgrade calls in map order.
pub open spec fn phase2_calls(m: &Migration) -> Seq<CallModel> {
    namespaces_calls(m.world_address, m.diff.namespaces@, m.diff.resources@) + resources_calls(
        m.world_address,
        m.diff.resources@,
    )
}

/// The artifacts the resource-sync phase declares.
pub open spec fn phase2_classes(m: &Migration) -> Seq<(FieldElement, Seq<u8>)> {
    classes_of(m.diff.resources@)
}

/// The operations of the resource-sync phase: the declare operations up to
/// the first rejection, and — only where every declaration succeeded — the
/// batched register and upgrade calls. No register or upgrade call is ever
/// submitted unless every artifact was flushed through the declarer first.
pub open spec fn phase2_ops(
    m: &Migration,
    outcomes: Seq<SubmitOutcome>,
    start: int,
) -> Seq<ChainOpModel> {
    let dops = declare_ops(phase2_classes(m));
    let taken = dops.take(attempted_of(outcomes, start, dops.len() as int));
    if first_rejection(outcomes, start, dops.len() as int) is Some {
        taken
    } else {
        taken + batch_ops_m(
            phase2_calls(m),
            m.spec_do_multicall(),
            outcomes,
            start + dops.len(),
        )
    }
}

/// The result of the resource-sync phase: a failed declaration aborts it
/// before any call is submitted; otherwise the batch decides.
pub open spec fn phase2_result(
    m: &Migration,
    outcomes: Seq<SubmitOutcome>,
    start: int,
) -> Result<(), MigrationError> {
    match declare_result(phase2_classes(m), outcomes, start) {
        Err(e) => Err(e),
        Ok(_) => batch_result_m(
            phase2_calls(m),
            m.spec_do_multicall(),
            outcomes,
            start + phase2_classes(m).len(),
        ),
    }
}

/// Every call of the permission-sync phase: the missing writer grants,
/// then the missing owner grants, both resolved against the deterministic
/// contract address map; or the first configuration error.
pub open spec fn phase3_calls(m: &Migration) -> Result<Seq<CallModel>, MigrationError> {
    let addrs = contract_addresses_of(m.diff.resources@, m.world_address);
    match grant_calls(
        m.world_address,
        "grant_writer"@,
        m.profile_config.writers@,
        m.diff.remote_writers@,
        addrs,
    ) {
        Err(e) => Err(e),
        Ok(w) => match grant_calls(
            m.world_address,
            "grant_owner"@,
            m.profile_config.owners@,
            m.diff.remote_owners@,
            addrs,
        ) {
            Err(e) => Err(e),
            Ok(o) => Ok(w + o),
        },
    }
}

/// The operations of the permission-sync phase: nothing at all on a
/// configuration error — it is raised before any network operation — else
/// the batched grant calls.
pub open spec fn phase3_ops(
    m: &Migration,
    outcomes: Seq<SubmitOutcome>,
    start: int,
) -> Seq<ChainOpModel> {
    match phase3_calls(m) {
        Err(_) => Seq::empty(),
        Ok(cs) => batch_ops_m(cs, m.spec_do_multicall(), outcomes, start),
    }
}

/// The result of the permission-sync phase.
pub open spec fn phase3_result(
    m: &Migration,
    outcomes: Seq<SubmitOutcome>,
    start: int,
) -> Result<(), MigrationError> {
    match phase3_calls(m) {
        Err(e) => Err(e),
        Ok(cs) => batch_result_m(cs, m.spec_do_multicall(), outcomes, start),
    }
}

/// The field elements a list of configured argument strings parses to, or
/// the first malformed argument as a configuration error.
pub open spec fn parsed_args(args: Seq<String>) -> Result<Seq<FieldElement>, MigrationError>
    decreases args.len(),
{
    if args.len() == 0 {
        Ok(Seq::empty())
    } else {
        match parsed_args(args.drop_last()) {
            Err(e) => Err(e),
            Ok(pre) => match parsed_felt(args.last()@) {
                None => Err(MigrationError::InitArgParse(args.last())),
                Some(f) => Ok(pre.push(f)),
            },
        }
    }
}

/// The configured initialization arguments of a contract tag; an absent
/// entry means an empty argument list.
pub open spec fn init_args_lookup(
    cfg: Seq<(String, Vec<String>)>,
    tag: Seq<char>,
) -> Seq<String>
    decreases cfg.len(),
{
    if cfg.len() == 0 {
        Seq::empty()
    } else if cfg[0].0@ == tag {
        cfg[0].1@
    } else {
        init_args_lookup(cfg.drop_first(), tag)
    }
}

/// The selector and tag of a contract eligible for initialization: a
/// created contract always is; an updated or synced one only while its
/// remote record reports it uninitialized.
pub open spec fn init_target(d: ResourceDiff) -> Option<(FieldElement, Seq<char>)> {
    match d {
        ResourceDiff::Created(ResourceLocal::Contract(c)) => Some((c.selector, c.tag@)),
        ResourceDiff::Updated(ResourceLocal::Contract(l), ResourceRemote::Contract(r)) => if !r.is_initialized {
            Some((l.selector, l.tag@))
        } else {
            None
        },
        ResourceDiff::Synced(ResourceRemote::Contract(r)) => if !r.is_initialized {
            Some((r.selector, r.tag@))
        } else {
            None
        },
        _ => None,
    }
}

/// One initialization call: the contract's selector, then the argument
/// count, then the parsed arguments.
pub open spec fn init_call_model(
    world: FieldElement,
    sel: FieldElement,
    args: Seq<FieldElement>,
) -> CallModel {
    CallModel {
        to: world,
        entrypoint: "init_contract"@,
        calldata: seq![sel, FieldElement { hi: 0, lo: args.len() as u128 }] + args,
    }
}

/// The initialization calls of the whole resource walk, in map order, or
/// the first malformed configured argument as an error.
pub open spec fn init_calls_of(
    world: FieldElement,
    s: Seq<(FieldElement, ResourceDiff)>,
    cfg: Seq<(String, Vec<String>)>,
) -> Result<Seq<CallModel>, MigrationError>
    decreases s.len(),
{
    if s.len() == 0 {
        Ok(Seq::empty())
    } else {
        match init_calls_of(world, s.drop_last(), cfg) {
            Err(e) => Err(e),
            Ok(pre) => match init_target(s.last().1) {
                None => Ok(pre),
                Some(t) => match parsed_args(init_args_lookup(cfg, t.1)) {
                    Err(e) => Err(e),
                    Ok(args) => Ok(pre.push(init_call_model(world, t.0, args))),
                },
            },
        }
    }
}

/// The operations of the initialization phase.
pub open spec fn phase4_ops(
    m: &Migration,
    outcomes: Seq<SubmitOutcome>,
    start: int,
) -> Seq<ChainOpModel> {
    match init_calls_of(m.world_address, m.diff.resources@, m.profile_config.init_call_args@) {
        Err(_) => Seq::empty(),
        Ok(cs) => batch_ops_m(cs, m.spec_do_multicall(), outcomes, start),
    }
}

/// The result of the initialization phase.
pub open spec fn phase4_result(
    m: &Migration,
    outcomes: Seq<SubmitOutcome>,
    start: int,
) -> Result<(), MigrationError> {
    match init_calls_of(m.world_address, m.diff.resources@, m.profile_config.init_call_args@) {
        Err(e) => Err(e),
        Ok(cs) => batch_result_m(cs, m.spec_do_multicall(), outcomes, start),
    }
}

/// An error among the first arguments decides the whole argument list.
pub proof fn lemma_parsed_args_err_persists(args: Seq<String>, m: int)
    requires
        0 <= m <= args.len(),
        parsed_args(args.take(m)) is Err,
    ensures
        parsed_args(args) == parsed_args(args.take(m)),
    decreases args.len() - m,
{
    if m == args.len() {
        assert(args.take(m) =~= args);
    } else {
        assert(args.take(m + 1).drop_last() =~= args.take(m));
        lemma_parsed_args_err_persists(args, m + 1);
    }
}

/// An error among the first resources decides the whole walk.
pub proof fn lemma_init_calls_err_persists(
    world: FieldElement,
    s: Seq<(FieldElement, ResourceDiff)>,
    cfg: Seq<(String, Vec<String>)>,
    m: int,
)
    requires
        0 <= m <= s.len(),
        init_calls_of(world, s.take(m), cfg) is Err,
    ensures
        init_calls_of(world, s, cfg) == init_calls_of(world, s.take(m), cfg),
    decreases s.len() - m,
{
    if m == s.len() {
        assert(s.take(m) =~= s);
    } else {
        assert(s.take(m + 1).drop_last() =~= s.take(m));
        lemma_init_calls_err_persists(world, s, cfg, m + 1);
    }
}

/// The first configuration entry carrying a tag is what lookup finds.
pub proof fn lemma_init_lookup_first(cfg: Seq<(String, Vec<String>)>, tag: Seq<char>, i: int)
    requires
        0 <= i < cfg.len(),
        cfg[i].0@ == tag,
        forall|j: int| 0 <= j < i ==> cfg[j].0@ != tag,
    ensures
        init_args_lookup(cfg, tag) == cfg[i].1@,
    decreases i,
{
    if i > 0 {
        assert(cfg[0].0@ != tag);
        assert forall|j: int| 0 <= j < i - 1 implies cfg.drop_first()[j].0@ != tag by {
            assert(cfg.drop_first()[j] == cfg[j + 1]);
        }
        assert(cfg.drop_first()[i - 1] == cfg[i]);
        lemma_init_lookup_first(cfg.drop_first(), tag, i - 1);
    }
}

/// An absent tag looks up the empty argument list.
pub proof fn lemma_init_lookup_none(cfg: Seq<(String, Vec<String>)>, tag: Seq<char>)
    requires
        forall|j: int| 0 <= j < cfg.len() ==> cfg[j].0@ != tag,
    ensures
        init_args_lookup(cfg, tag) == Seq::<String>::empty(),
    decreases cfg.len(),
{
    if cfg.len() > 0 {
        assert forall|j: int| 0 <= j < cfg.len() - 1 implies cfg.drop_first()[j].0@ != tag by {
            assert(cfg.drop_first()[j] == cfg[j + 1]);
        }
        lemma_init_lookup_none(cfg.drop_first(), tag);
    }
}

/// Find the configured initialization arguments of a tag.
pub fn find_init_args(cfg: &Vec<(String, Vec<String>)>, tag: &String) -> (r: Option<usize>)
    ensures
        r matches Some(i) ==> (i < cfg@.len() && init_args_lookup(cfg@, tag@)
            == cfg@[i as int].1@),
        r is None ==> init_args_lookup(cfg@, tag@) == Seq::<String>::empty(),
{
    let mut i: usize = 0;
    while i < cfg.len()
        invariant
            i <= cfg@.len(),
            forall|j: int| 0 <= j < i ==> cfg@[j].0@ != tag@,
        decreases cfg@.len() - i,
    {
        if cfg[i].0.eq(tag) {
            proof {
                lemma_init_lookup_first(cfg@, tag@, i as int);
            }
            return Some(i);
        }
        i += 1;
    }
    proof {
        lemma_init_lookup_none(cfg@, tag@);
    }
    None
}

/// Parse each configured argument as a numeric field element; the first
/// malformed one is a fatal configuration error carrying the offending
/// value.
pub fn parse_args(args: &Vec<String>) -> (r: Result<Vec<FieldElement>, MigrationError>)
    ensures
        r matches Ok(v) ==> parsed_args(args@) == Ok::<Seq<FieldElement>, MigrationError>(v@),
        r matches Err(e) ==> parsed_args(args@) == Err::<Seq<FieldElement>, MigrationError>(e),
{
    let mut out: Vec<FieldElement> = Vec::new();
    proof {
        assert(args@.take(0) =~= Seq::<String>::empty());
        assert(out@ =~= Seq::<FieldElement>::empty());
    }
    let mut i: usize = 0;
    while i < args.len()
        invariant
            i <= args@.len(),
            parsed_args(args@.take(i as int)) == Ok::<Seq<FieldElement>, MigrationError>(out@),
        decreases args@.len() - i,
    {
        proof {
            assert(args@.take(i + 1).drop_last() =~= args@.take(i as int));
            assert(args@.take(i + 1).last() == args@[i as int]);
        }
        match parse_felt(args[i].as_str()) {
            Some(f) => {
                out.push(f);
            },
            None => {
                proof {
                    lemma_parsed_args_err_persists(args@, i + 1);
                }
                return Err(MigrationError::InitArgParse(args[i].clone()));
            },
        }
        i += 1;
    }
    proof {
        assert(args@.take(args@.len() as int) =~= args@);
    }
    Ok(out)
}

impl Migration {
    /// A new migration run over a diff, the world contract's address, and
    /// the transaction and profile configuration.
    pub fn new(
        diff: WorldDiff,
        world_address: FieldElement,
        txn_config: TxnConfig,
        profile_config: ProfileConfig,
    ) -> (r: Migration)
        ensures
            r.diff == diff,
            r.world_address == world_address,
            r.txn_config == txn_config,
            r.profile_config == profile_config,
    {
        Migration { diff, world_address, txn_config, profile_config }
    }

    /// Whether calls are batched into one atomic multicall; enabled unless
    /// the configuration disables it. Evaluated once per migration run.
    pub open spec fn spec_do_multicall(&self) -> bool {
        match self.profile_config.migration {
            Some(m) => !m.disable_multicall,
            None => true,
        }
    }

    /// Whether multicall is used; by default it is.
    pub fn do_multicall(&self) -> (r: bool)
        ensures
            r == self.spec_do_multicall(),
    {
        match &self.profile_config.migration {
            Some(m) => !m.disable_multicall,
            None => true,
        }
    }

    /// Ensure the world itself is declared and deployed where necessary: a
    /// changed world class is declared and a new instance deployed from a
    /// salt derived from the configured seed; a synced world is a no-op.
    pub fn ensure_world(&self, ex: &mut Executor) -> (r: Result<(), MigrationError>)
        ensures
            final(ex).outcomes@ == old(ex).outcomes@,
            final(ex).log() == old(ex).log() + phase1_ops(
                self,
                old(ex).outcomes@,
                old(ex).ops@.len() as int,
            ),
            r == phase1_result(self, old(ex).outcomes@, old(ex).ops@.len() as int),
    {
        let ghost start = old(ex).ops@.len() as int;
        match &self.diff.world_status {
            WorldStatus::Synced => {
                proof {
                    assert(old(ex).log() + phase1_ops(self, old(ex).outcomes@, start) =~= old(
                        ex,
                    ).log());
                }
                Ok(())
            },
            WorldStatus::NotDeployed => {
                proof {
                    assert(old(ex).log() + phase1_ops(self, old(ex).outcomes@, start) =~= old(
                        ex,
                    ).log());
                }
                Err(MigrationError::MissingWorldClass)
            },
            WorldStatus::NewVersion(class_hash, casm_class_hash, _) => {
                match world_salt(self.profile_config.world_seed.as_str()) {
                    None => {
                        proof {
                            assert(old(ex).log() + phase1_ops(self, old(ex).outcomes@, start)
                                =~= old(ex).log());
                        }
                        Err(MigrationError::InvalidWorldSeed(self.profile_config.world_seed.clone()))
                    },
                    Some(salt) => {
                        let ghost dop = ChainOpModel::Declare { casm_class_hash: *casm_class_hash };
                        match Declarer::declare(*casm_class_hash, ex) {
                            Err(e) => {
                                proof {
                                    assert(old(ex).log() + phase1_ops(
                                        self,
                                        old(ex).outcomes@,
                                        start,
                                    ) =~= old(ex).log() + seq![dop]);
                                }
                                Err(e)
                            },
                            Ok(_) => {
                                let mut ctor: Vec<FieldElement> = Vec::new();
                                ctor.push(*class_hash);
                                proof {
                                    assert(ctor@ =~= seq![*class_hash]);
                                }
                                let r = deploy_via_udc(
                                    ex,
                                    *class_hash,
                                    salt,
                                    &ctor,
                                    FieldElement::zero(),
                                );
                                proof {
                                    assert(ex.log() =~= old(ex).log() + (seq![dop] + deploy_ops(
                                        *class_hash,
                                        salt,
                                        seq![*class_hash],
                                        FieldElement { hi: 0, lo: 0 },
                                    )));
                                }
                                match r {
                                    Ok(_) => Ok(()),
                                    Err(e) => Err(e),
                                }
                            },
                        }
                    },
                }
            },
        }
    }

    /// Add the registration calls of the created namespaces, in the order
    /// the diff lists them: namespaces go first, since every other resource
    /// is namespaced.
    pub fn namespaces_getcalls(&self, invoker: &mut Invoker)
        requires
            self.diff.wf(),
        ensures
            call_views(final(invoker).calls@) == call_views(old(invoker).calls@)
                + namespaces_calls(self.world_address, self.diff.namespaces@, self.diff.resources@),
    {
        proof {
            assert(self.diff.namespaces@.take(0) =~= Seq::<FieldElement>::empty());
            assert(call_views(invoker.calls@) + Seq::<CallModel>::empty() =~= call_views(
                invoker.calls@,
            ));
        }
        let mut i: usize = 0;
        while i < self.diff.namespaces.len()
            invariant
                i <= self.diff.namespaces@.len(),
                self.diff.wf(),
                call_views(invoker.calls@) == call_views(old(invoker).calls@) + namespaces_calls(
                    self.world_address,
                    self.diff.namespaces@.take(i as int),
                    self.diff.resources@,
                ),
            decreases self.diff.namespaces@.len() - i,
        {
            proof {
                assert(self.diff.namespaces@.take(i + 1).drop_last() =~= self.diff.namespaces@.take(
                    i as int,
                ));
                assert(self.diff.namespaces@.take(i + 1).last() == self.diff.namespaces@[i as int]);
            }
            let ns = self.diff.namespaces[i];
            match find_entry(&self.diff.resources, &ns) {
                None => {
                    proof {
                        assert(seq_has_key(self.diff.resources@, ns));
                        assert(false);
                    }
                },
                Some(ri) => {
                    match &self.diff.resources[ri].1 {
                        ResourceDiff::Created(ResourceLocal::Namespace(n)) => {
                            let cd = encode_byte_array(n.name.as_str());
                            let call = Call {
                                to: self.world_address,
                                entrypoint: "register_namespace".to_owned(),
                                calldata: cd,
                            };
                            let ghost c0 = call;
                            let ghost prev = invoker.calls@;
                            proof {
                                assert(c0@ == register_namespace_call(self.world_address, n.name@));
                            }
                            invoker.add_call(call);
                            proof {
                                lemma_call_views_push(prev, c0);
                                assert(call_views(invoker.calls@) =~= call_views(old(
                                    invoker,
                                ).calls@) + namespaces_calls(
                                    self.world_address,
                                    self.diff.namespaces@.take(i + 1),
                                    self.diff.resources@,
                                ));
                            }
                        },
                        _ => {
                            proof {
                                assert(call_views(invoker.calls@) =~= call_views(old(
                                    invoker,
                                ).calls@) + namespaces_calls(
                                    self.world_address,
                                    self.diff.namespaces@.take(i + 1),
                                    self.diff.resources@,
                                ));
                            }
                        },
                    }
                },
            }
            i += 1;
        }
        proof {
            assert(self.diff.namespaces@.take(self.diff.namespaces@.len() as int)
                =~= self.diff.namespaces@);
        }
    }

    /// Add the register or upgrade call of one contract resource and its
    /// artifact: a created contract is declared and registered, an updated
    /// one declared and upgraded, a synced one left alone.
    pub fn contracts_getcalls(
        &self,
        resource: &ResourceDiff,
        invoker: &mut Invoker,
        declarer: &mut Declarer,
    )
        requires
            resource.kind() == ResourceKind::Contract,
        ensures
            call_views(final(invoker).calls@) == call_views(old(invoker).calls@)
                + resource_calls_of(self.world_address, *resource),
            final(declarer).registry() == (match resource_class_of(*resource) {
                Some(p) => add_class_spec(old(declarer).registry(), p.0, p.1),
                None => old(declarer).registry(),
            }),
            old(declarer).wf() ==> final(declarer).wf(),
    {
        match resource {
            ResourceDiff::Created(ResourceLocal::Contract(c)) => {
                declarer.add_class(c.casm_class_hash, copy_bytes(&c.artifact));
                let mut cd: Vec<FieldElement> = Vec::new();
                cd.push(c.selector);
                let mut enc = encode_byte_array(c.namespace.as_str());
                cd.append(&mut enc);
                cd.push(c.class_hash);
                let call = Call {
                    to: self.world_address,
                    entrypoint: "register_contract".to_owned(),
                    calldata: cd,
                };
                let ghost c0 = call;
                let ghost prev = invoker.calls@;
                proof {
                    assert(c0@.calldata =~= seq![c.selector] + byte_array_encoding(c.namespace@)
                        + seq![c.class_hash]);
                    assert(c0@ == register_contract_call(self.world_address, *c));
                }
                invoker.add_call(call);
                proof {
                    lemma_call_views_push(prev, c0);
                    assert(call_views(invoker.calls@) =~= call_views(prev) + resource_calls_of(
                        self.world_address,
                        *resource,
                    ));
                }
            },
            ResourceDiff::Updated(ResourceLocal::Contract(c), _) => {
                declarer.add_class(c.casm_class_hash, copy_bytes(&c.artifact));
                let mut cd: Vec<FieldElement> = Vec::new();
                let mut enc = encode_byte_array(c.namespace.as_str());
                cd.append(&mut enc);
                cd.push(c.class_hash);
                let call = Call {
                    to: self.world_address,
                    entrypoint: "upgrade_contract".to_owned(),
                    calldata: cd,
                };
                let ghost c0 = call;
                let ghost prev = invoker.calls@;
                proof {
                    assert(c0@.calldata =~= byte_array_encoding(c.namespace@) + seq![
                        c.class_hash,
                    ]);
                    assert(c0@ == class_call(self.world_address, "upgrade_contract"@, *c));
                }
                invoker.add_call(call);
                proof {
                    lemma_call_views_push(prev, c0);
                    assert(call_views(invoker.calls@) =~= call_views(prev) + resource_calls_of(
                        self.world_address,
                        *resource,
                    ));
                }
            },
            _ => {
                proof {
                    assert(resource_calls_of(self.world_address, *resource) =~= Seq::<
                        CallModel,
                    >::empty());
                    assert(call_views(invoker.calls@) =~= call_views(invoker.calls@) + Seq::<
                        CallModel,
                    >::empty());
                }
            },
        }
    }

    /// As [`Migration::contracts_getcalls`], for a model resource.
    pub fn models_getcalls(
        &self,
        resource: &ResourceDiff,
        invoker: &mut Invoker,
        declarer: &mut Declarer,
    )
        requires
            resource.kind() == ResourceKind::Model,
        ensures
            call_views(final(invoker).calls@) == call_views(old(invoker).calls@)
                + resource_calls_of(self.world_address, *resource),
            final(declarer).registry() == (match resource_class_of(*resource) {
                Some(p) => add_class_spec(old(declarer).registry(), p.0, p.1),
                None => old(declarer).registry(),
            }),
            old(declarer).wf() ==> final(declarer).wf(),
    {
        match resource {
            ResourceDiff::Created(ResourceLocal::Model(c)) => {
                declarer.add_class(c.casm_class_hash, copy_bytes(&c.artifact));
                self.push_class_call(invoker, "register_model", c);
            },
            ResourceDiff::Updated(ResourceLocal::Model(c), _) => {
                declarer.add_class(c.casm_class_hash, copy_bytes(&c.artifact));
                self.push_class_call(invoker, "upgrade_model", c);
            },
            _ => {
                proof {
                    assert(resource_calls_of(self.world_address, *resource) =~= Seq::<
                        CallModel,
                    >::empty());
                    assert(call_views(invoker.calls@) =~= call_views(invoker.calls@) + Seq::<
                        CallModel,
                    >::empty());
                }
            },
        }
    }

    /// As [`Migration::contracts_getcalls`], for an event resource.
    pub fn events_getcalls(
        &self,
        resource: &ResourceDiff,
        invoker: &mut Invoker,
        declarer: &mut Declarer,
    )
        requires
            resource.kind() == ResourceKind::Event,
        ensures
            call_views(final(invoker).calls@) == call_views(old(invoker).calls@)
                + resource_calls_of(self.world_address, *resource),
            final(declarer).registry() == (match resource_class_of(*resource) {
                Some(p) => add_class_spec(old(declarer).registry(), p.0, p.1),
                None => old(declarer).registry(),
            }),
            old(declarer).wf() ==> final(declarer).wf(),
    {
        match resource {
            ResourceDiff::Created(ResourceLocal::Event(c)) => {
                declarer.add_class(c.casm_class_hash, copy_bytes(&c.artifact));
                self.push_class_call(invoker, "register_event", c);
            },
            ResourceDiff::Updated(ResourceLocal::Event(c), _) => {
                declarer.add_class(c.casm_class_hash, copy_bytes(&c.artifact));
                self.push_class_call(invoker, "upgrade_event", c);
            },
            _ => {
                proof {
                    assert(resource_calls_of(self.world_address, *resource) =~= Seq::<
                        CallModel,
                    >::empty());
                    assert(call_views(invoker.calls@) =~= call_views(invoker.calls@) + Seq::<
                        CallModel,
                    >::empty());
                }
            },
        }
    }

    /// Build and append the namespaced class call of a model or event.
    fn push_class_call(&self, invoker: &mut Invoker, ep: &str, c: &ClassResource)
        ensures
            call_views(final(invoker).calls@) == call_views(old(invoker).calls@).push(
                class_call(self.world_address, ep@, *c),
            ),
    {
        let mut cd: Vec<FieldElement> = Vec::new();
        let mut enc = encode_byte_array(c.namespace.as_str());
        cd.append(&mut enc);
        cd.push(c.class_hash);
        let call = Call { to: self.world_address, entrypoint: ep.to_owned(), calldata: cd };
        let ghost c0 = call;
        let ghost prev = invoker.calls@;
        proof {
            assert(c0@.calldata =~= byte_array_encoding(c.namespace@) + seq![c.class_hash]);
            assert(c0@ == class_call(self.world_address, ep@, *c));
        }
        invoker.add_call(call);
        proof {
            lemma_call_views_push(prev, c0);
        }
    }

    /// Sync the resources: register the created namespaces first, then walk
    /// the resource map collecting register and upgrade calls while feeding
    /// the declarer, flush every unique artifact, and only then execute the
    /// accumulated calls. A call referencing an undeclared artifact is never
    /// submitted.
    pub fn sync_resources(&self, ex: &mut Executor) -> (r: Result<(), MigrationError>)
        requires
            self.diff.wf(),
        ensures
            final(ex).outcomes@ == old(ex).outcomes@,
            final(ex).log() == old(ex).log() + phase2_ops(
                self,
                old(ex).outcomes@,
                old(ex).ops@.len() as int,
            ),
            r == phase2_result(self, old(ex).outcomes@, old(ex).ops@.len() as int),
    {
        let ghost start = old(ex).ops@.len() as int;
        let mut invoker = Invoker::new();
        let mut declarer = Declarer::new();
        proof {
            assert(call_views(invoker.calls@) =~= Seq::<CallModel>::empty());
            assert(declarer.registry() =~= Seq::<(FieldElement, Seq<u8>)>::empty());
        }
        self.namespaces_getcalls(&mut invoker);
        let ghost ns_calls = namespaces_calls(
            self.world_address,
            self.diff.namespaces@,
            self.diff.resources@,
        );
        proof {
            assert(call_views(invoker.calls@) =~= ns_calls);
            assert(self.diff.resources@.take(0) =~= Seq::<(FieldElement, ResourceDiff)>::empty());
            assert(ns_calls + Seq::<CallModel>::empty() =~= ns_calls);
        }
        let mut i: usize = 0;
        while i < self.diff.resources.len()
            invariant
                i <= self.diff.resources@.len(),
                self.diff.wf(),
                ns_calls == namespaces_calls(
                    self.world_address,
                    self.diff.namespaces@,
                    self.diff.resources@,
                ),
                call_views(invoker.calls@) == ns_calls + resources_calls(
                    self.world_address,
                    self.diff.resources@.take(i as int),
                ),
                declarer.registry() == classes_of(self.diff.resources@.take(i as int)),
                declarer.wf(),
            decreases self.diff.resources@.len() - i,
        {
            proof {
                assert(self.diff.resources@.take(i + 1).drop_last() =~= self.diff.resources@.take(
                    i as int,
                ));
                assert(self.diff.resources@.take(i + 1).last() == self.diff.resources@[i as int]);
            }
            let ghost pre_calls = call_views(invoker.calls@);
            let res = &self.diff.resources[i].1;
            let k = res.resource_type();
            if k == ResourceKind::Contract {
                self.contracts_getcalls(res, &mut invoker, &mut declarer);
            } else if k == ResourceKind::Model {
                self.models_getcalls(res, &mut invoker, &mut declarer);
            } else if k == ResourceKind::Event {
                self.events_getcalls(res, &mut invoker, &mut declarer);
            } else {
                proof {
                    assert(resource_calls_of(self.world_address, *res) =~= Seq::<
                        CallModel,
                    >::empty());
                    assert(resource_class_of(*res) is None);
                }
            }
            proof {
                assert(call_views(invoker.calls@) =~= ns_calls + resources_calls(
                    self.world_address,
                    self.diff.resources@.take(i + 1),
                ));
            }
            i += 1;
        }
        proof {
            assert(self.diff.resources@.take(self.diff.resources@.len() as int)
                =~= self.diff.resources@);
            assert(call_views(invoker.calls@) == phase2_calls(self));
            assert(declarer.registry() == phase2_classes(self));
        }
        let ghost dops = declare_ops(phase2_classes(self));
        match declarer.declare_all(ex) {
            Err(e) => {
                proof {
                    assert(first_rejection(old(ex).outcomes@, start, dops.len() as int) is Some);
                }
                Err(e)
            },
            Ok(_) => {
                proof {
                    assert(first_rejection(old(ex).outcomes@, start, dops.len() as int) is None);
                    assert(attempted_of(old(ex).outcomes@, start, dops.len() as int)
                        == dops.len() as int);
                    assert(dops.take(dops.len() as int) =~= dops);
                }
                let ghost mid = ex.ops@.len() as int;
                let r = invoker.execute(self.do_multicall(), ex);
                proof {
                    lemma_batch_views(
                        invoker.calls@,
                        self.spec_do_multicall(),
                        old(ex).outcomes@,
                        mid,
                    );
                    assert(ex.log() =~= old(ex).log() + (dops + batch_ops_m(
                        phase2_calls(self),
                        self.spec_do_multicall(),
                        old(ex).outcomes@,
                        start + dops.len(),
                    )));
                }
                r
            },
        }
    }

    /// Sync the permissions: resolve each locally declared grantee to its
    /// deterministic contract address and grant whatever the remote sets
    /// lack, writers first, then owners. Strictly additive: nothing is
    /// revoked. An unresolvable grantee aborts the phase before any call.
    pub fn sync_permissions(&self, ex: &mut Executor) -> (r: Result<(), MigrationError>)
        ensures
            final(ex).outcomes@ == old(ex).outcomes@,
            final(ex).log() == old(ex).log() + phase3_ops(
                self,
                old(ex).outcomes@,
                old(ex).ops@.len() as int,
            ),
            r == phase3_result(self, old(ex).outcomes@, old(ex).ops@.len() as int),
    {
        let ghost start = old(ex).ops@.len() as int;
        let addrs = self.diff.get_contracts_addresses(self.world_address);
        match missing_grants(
            self.world_address,
            "grant_writer",
            &self.profile_config.writers,
            &self.diff.remote_writers,
            &addrs,
        ) {
            Err(e) => {
                proof {
                    assert(old(ex).log() + phase3_ops(self, old(ex).outcomes@, start) =~= old(
                        ex,
                    ).log());
                }
                Err(e)
            },
            Ok(mut wcalls) => {
                match missing_grants(
                    self.world_address,
                    "grant_owner",
                    &self.profile_config.owners,
                    &self.diff.remote_owners,
                    &addrs,
                ) {
                    Err(e) => {
                        proof {
                            assert(old(ex).log() + phase3_ops(self, old(ex).outcomes@, start)
                                =~= old(ex).log());
                        }
                        Err(e)
                    },
                    Ok(mut ocalls) => {
                        let ghost wv = call_views(wcalls@);
                        let ghost ov = call_views(ocalls@);
                        wcalls.append(&mut ocalls);
                        proof {
                            assert(call_views(wcalls@) =~= wv + ov);
                            assert(phase3_calls(self) == Ok::<Seq<CallModel>, MigrationError>(
                                wv + ov,
                            ));
                        }
                        let invoker = Invoker { calls: wcalls };
                        let r = invoker.execute(self.do_multicall(), ex);
                        proof {
                            lemma_batch_views(
                                invoker.calls@,
                                self.spec_do_multicall(),
                                old(ex).outcomes@,
                                start,
                            );
                        }
                        r
                    },
                }
            },
        }
    }

    /// Initialize every eligible contract: created contracts always, and
    /// updated or synced ones whose remote record reports them not yet
    /// initialized, each with its configured arguments parsed as numeric
    /// field elements. A malformed argument aborts before any call.
    pub fn initialize_contracts(&self, ex: &mut Executor) -> (r: Result<(), MigrationError>)
        ensures
            final(ex).outcomes@ == old(ex).outcomes@,
            final(ex).log() == old(ex).log() + phase4_ops(
                self,
                old(ex).outcomes@,
                old(ex).ops@.len() as int,
            ),
            r == phase4_result(self, old(ex).outcomes@, old(ex).ops@.len() as int),
    {
        let ghost start = old(ex).ops@.len() as int;
        let ghost cfg = self.profile_config.init_call_args@;
        let mut invoker = Invoker::new();
        proof {
            assert(self.diff.resources@.take(0) =~= Seq::<(FieldElement, ResourceDiff)>::empty());
            assert(call_views(invoker.calls@) =~= Seq::<CallModel>::empty());
        }
        let mut i: usize = 0;
        while i < self.diff.resources.len()
            invariant
                i <= self.diff.resources@.len(),
                cfg == self.profile_config.init_call_args@,
                init_calls_of(self.world_address, self.diff.resources@.take(i as int), cfg)
                    == Ok::<Seq<CallModel>, MigrationError>(call_views(invoker.calls@)),
            decreases self.diff.resources@.len() - i,
        {
            proof {
                assert(self.diff.resources@.take(i + 1).drop_last() =~= self.diff.resources@.take(
                    i as int,
                ));
                assert(self.diff.resources@.take(i + 1).last() == self.diff.resources@[i as int]);
            }
            let res = &self.diff.resources[i].1;
            let mut selector = FieldElement::zero();
            let mut tag: &String = &self.profile_config.world_seed;
            let mut eligible = false;
            match res {
                ResourceDiff::Created(ResourceLocal::Contract(c)) => {
                    selector = c.selector;
                    tag = &c.tag;
                    eligible = true;
                },
                ResourceDiff::Updated(ResourceLocal::Contract(l), ResourceRemote::Contract(rc)) => {
                    if !rc.is_initialized {
                        selector = l.selector;
                        tag = &l.tag;
                        eligible = true;
                    }
                },
                ResourceDiff::Synced(ResourceRemote::Contract(rc)) => {
                    if !rc.is_initialized {
                        selector = rc.selector;
                        tag = &rc.tag;
                        eligible = true;
                    }
                },
                _ => {},
            }
            if eligible {
                proof {
                    assert(init_target(self.diff.resources@[i as int].1) == Some(
                        (selector, tag@),
                    ));
                }
                let parsed = match find_init_args(&self.profile_config.init_call_args, tag) {
                    Some(ai) => parse_args(&self.profile_config.init_call_args[ai].1),
                    None => {
                        proof {
                            assert(parsed_args(Seq::<String>::empty()) == Ok::<
                                Seq<FieldElement>,
                                MigrationError,
                            >(Seq::empty()));
                        }
                        Ok(Vec::new())
                    },
                };
                match parsed {
                    Err(e) => {
                        proof {
                            lemma_init_calls_err_persists(
                                self.world_address,
                                self.diff.resources@,
                                cfg,
                                i + 1,
                            );
                            assert(old(ex).log() + phase4_ops(self, old(ex).outcomes@, start)
                                =~= old(ex).log());
                        }
                        return Err(e);
                    },
                    Ok(argv) => {
                        let ghost av = argv@;
                        let n_args: usize = argv.len();
                        let mut cd: Vec<FieldElement> = Vec::new();
                        cd.push(selector);
                        cd.push(FieldElement { hi: 0, lo: n_args as u128 });
                        let mut argv2 = argv;
                        cd.append(&mut argv2);
                        let call = Call {
                            to: self.world_address,
                            entrypoint: "init_contract".to_owned(),
                            calldata: cd,
                        };
                        let ghost c0 = call;
                        let ghost prev = invoker.calls@;
                        proof {
                            assert(c0@.calldata =~= seq![
                                selector,
                                FieldElement { hi: 0, lo: av.len() as u128 },
                            ] + av);
                            assert(c0@ == init_call_model(self.world_address, selector, av));
                        }
                        invoker.add_call(call);
                        proof {
                            lemma_call_views_push(prev, c0);
                            assert(call_views(invoker.calls@) =~= call_views(prev).push(c0@));
                        }
                    },
                }
            } else {
                proof {
                    assert(init_target(self.diff.resources@[i as int].1) is None);
                }
            }
            i += 1;
        }
        proof {
            assert(self.diff.resources@.take(self.diff.resources@.len() as int)
                =~= self.diff.resources@);
        }
        let r = invoker.execute(self.do_multicall(), ex);
        proof {
            lemma_batch_views(invoker.calls@, self.spec_do_multicall(), old(ex).outcomes@, start);
        }
        r
    }

    /// Migrate the world: the four phases in their fixed order, each one's
    /// calls executed at the end of that phase; any error aborts the
    /// remaining phases. On success the world's address is reported.
    pub fn migrate(&self, ex: &mut Executor) -> (r: Result<FieldElement, MigrationError>)
        requires
            self.diff.wf(),
        ensures
            final(ex).outcomes@ == old(ex).outcomes@,
            final(ex).log() == old(ex).log() + migrate_ops(
                self,
                old(ex).outcomes@,
                old(ex).ops@.len() as int,
            ),
            r == migrate_result(self, old(ex).outcomes@, old(ex).ops@.len() as int),
            r matches Ok(address) ==> address == self.world_address,
    {
        let ghost outcomes = old(ex).outcomes@;
        let ghost start = old(ex).ops@.len() as int;
        let ghost o1 = phase1_ops(self, outcomes, start);
        let r1 = self.ensure_world(ex);
        if let Err(e) = r1 {
            return Err(e);
        }
        proof {
            assert(ex.log().len() == start + o1.len());
        }
        let ghost o2 = phase2_ops(self, outcomes, start + o1.len() as int);
        let r2 = self.sync_resources(ex);
        proof {
            assert(ex.log() =~= old(ex).log() + (o1 + o2));
        }
        if let Err(e) = r2 {
            return Err(e);
        }
        let ghost o3 = phase3_ops(self, outcomes, start + o1.len() + o2.len());
        let r3 = self.sync_permissions(ex);
        proof {
            assert(ex.log() =~= old(ex).log() + (o1 + o2 + o3));
        }
        if let Err(e) = r3 {
            return Err(e);
        }
        let ghost o4 = phase4_ops(self, outcomes, start + o1.len() + o2.len() + o3.len());
        let r4 = self.initialize_contracts(ex);
        proof {
            assert(ex.log() =~= old(ex).log() + (o1 + o2 + o3 + o4));
        }
        if let Err(e) = r4 {
            return Err(e);
        }
        Ok(self.world_address)
    }
}

/// The every operation one migration run submits against a transcript:
/// phase after phase, stopping with the phase that fails.
pub open spec fn migrate_ops(
    m: &Migration,
    outcomes: Seq<SubmitOutcome>,
    start: int,
) -> Seq<ChainOpModel> {
    let o1 = phase1_ops(m, outcomes, start);
    if phase1_result(m, outcomes, start) is Err {
        o1
    } else {
        let o2 = phase2_ops(m, outcomes, start + o1.len());
        if phase2_result(m, outcomes, start + o1.len()) is Err {
            o1 + o2
        } else {
            let o3 = phase3_ops(m, outcomes, start + o1.len() + o2.len());
            if phase3_result(m, outcomes, start + o1.len() + o2.len()) is Err {
                o1 + o2 + o3
            } else {
                o1 + o2 + o3 + phase4_ops(m, outcomes, start + o1.len() + o2.len() + o3.len())
            }
        }
    }
}

/// The result of one migration run against a transcript: the first failing
/// phase decides it, and success reports the world's address.
pub open spec fn migrate_result(
    m: &Migration,
    outcomes: Seq<SubmitOutcome>,
    start: int,
) -> Result<FieldElement, MigrationError> {
    let o1 = phase1_ops(m, outcomes, start);
    match phase1_result(m, outcomes, start) {
        Err(e) => Err(e),
        Ok(_) => {
            let o2 = phase2_ops(m, outcomes, start + o1.len());
            match phase2_result(m, outcomes, start + o1.len()) {
                Err(e) => Err(e),
                Ok(_) => {
                    let o3 = phase3_ops(m, outcomes, start + o1.len() + o2.len());
                    match phase3_result(m, outcomes, start + o1.len() + o2.len()) {
                        Err(e) => Err(e),
                        Ok(_) => match phase4_result(
                            m,
                            outcomes,
                            start + o1.len() + o2.len() + o3.len(),
                        ) {
                            Err(e) => Err(e),
                            Ok(_) => Ok(m.world_address),
                        },
                    }
                },
            }
        },
    }
}

/// A synced resource never produces any call in the resource-sync phase,
/// and never sends an artifact to the declarer.
pub proof fn lemma_synced_resource_is_silent(world: FieldElement, d: ResourceDiff)
    requires
        d is Synced,
    ensures
        resource_calls_of(world, d) =~= Seq::<CallModel>::empty(),
        resource_class_of(d) is None,
{
}

/// Inserting an artifact keeps every key the registry already has, and
/// establishes its own.
pub proof fn lemma_add_class_keeps_keys(
    s: Seq<(FieldElement, Seq<u8>)>,
    h: FieldElement,
    a: Seq<u8>,
    x: FieldElement,
)
    requires
        has_class(s, x) || x == h,
    ensures
        has_class(add_class_spec(s, h, a), x),
{
    if has_class(s, x) {
        let i = choose|i: int| 0 <= i < s.len() && s[i].0 == x;
        assert(add_class_spec(s, h, a)[i].0 == x);
    } else {
        if has_class(s, h) {
            let i = choose|i: int| 0 <= i < s.len() && s[i].0 == h;
            assert(add_class_spec(s, h, a)[i].0 == x);
        } else {
            assert(add_class_spec(s, h, a).last().0 == x);
        }
    }
}

/// No register or upgrade call is emitted for an artifact that is not in
/// the declarer's registry after the same walk: every resource that emits
/// a call contributes its artifact, and that artifact's key is among the
/// registered ones.
pub proof fn lemma_calls_have_declared_classes(
    world: FieldElement,
    s: Seq<(FieldElement, ResourceDiff)>,
    i: int,
)
    requires
        0 <= i < s.len(),
        resource_calls_of(world, s[i].1).len() > 0,
    ensures
        resource_class_of(s[i].1) is Some,
        has_class(classes_of(s), resource_class_of(s[i].1)->Some_0.0),
    decreases s.len(),
{
    let h = resource_class_of(s[i].1)->Some_0.0;
    if i == s.len() - 1 {
        lemma_add_class_keeps_keys(classes_of(s.drop_last()), h, resource_class_of(
            s[i].1,
        )->Some_0.1, h);
    } else {
        assert(s.drop_last()[i] == s[i]);
        lemma_calls_have_declared_classes(world, s.drop_last(), i);
        match resource_class_of(s.last().1) {
            Some(p) => {
                lemma_add_class_keeps_keys(classes_of(s.drop_last()), p.0, p.1, h);
            },
            None => {},
        }
    }
}

/// In the resource-sync phase every operation that is not a declaration
/// stands after all declare operations, and appears only in a run where no
/// declaration was rejected: a call referencing an undeclared artifact is
/// never submitted.
pub proof fn lemma_declarations_precede_calls(
    m: &Migration,
    outcomes: Seq<SubmitOutcome>,
    start: int,
    k: int,
)
    requires
        0 <= k < phase2_ops(m, outcomes, start).len(),
        !(phase2_ops(m, outcomes, start)[k] is Declare),
    ensures
        first_rejection(outcomes, start, phase2_classes(m).len() as int) is None,
        k >= phase2_classes(m).len(),
{
    let n = phase2_classes(m).len() as int;
    let dops = declare_ops(phase2_classes(m));
    assert(dops.len() == n);
    match first_rejection(outcomes, start, n) {
        Some(j) => {
            crate::invoker::lemma_first_rejection_bounds(outcomes, start, n, j);
            let taken = dops.take(j + 1);
            assert(phase2_ops(m, outcomes, start) == taken);
            assert(taken[k] == dops[k]);
            assert(dops[k] == ChainOpModel::Declare {
                casm_class_hash: phase2_classes(m)[k].0,
            });
            assert(false);
        },
        None => {
            if k < n {
                assert(phase2_ops(m, outcomes, start)[k] == dops.take(n)[k]);
                assert(dops[k] == ChainOpModel::Declare {
                    casm_class_hash: phase2_classes(m)[k].0,
                });
                assert(false);
            }
        },
    }
}

/// A fully synced state: the world's own class is unchanged, every
/// resource diff is `Synced`, every contract reports itself initialized,
/// and no local grant is missing remotely. This is what the diff
/// computation yields right after a successful migration against an
/// unchanged remote state.
pub open spec fn fully_synced(m: &Migration) -> bool {
    &&& m.diff.world_status is Synced
    &&& forall|i: int|
        0 <= i < m.diff.resources@.len() ==> (#[trigger] m.diff.resources@[i]).1 is Synced
    &&& forall|i: int|
        0 <= i < m.diff.resources@.len() ==> match (#[trigger] m.diff.resources@[i]).1 {
            ResourceDiff::Synced(ResourceRemote::Contract(r)) => r.is_initialized,
            _ => true,
        }
    &&& grant_calls(
        m.world_address,
        "grant_writer"@,
        m.profile_config.writers@,
        m.diff.remote_writers@,
        contract_addresses_of(m.diff.resources@, m.world_address),
    ) == Ok::<Seq<CallModel>, MigrationError>(Seq::empty())
    &&& grant_calls(
        m.world_address,
        "grant_owner"@,
        m.profile_config.owners@,
        m.diff.remote_owners@,
        contract_addresses_of(m.diff.resources@, m.world_address),
    ) == Ok::<Seq<CallModel>, MigrationError>(Seq::empty())
}

/// A lookup can only find what the map holds.
pub proof fn lemma_seq_lookup_member<T>(s: Seq<(FieldElement, T)>, k: FieldElement)
    requires
        seq_lookup(s, k) is Some,
    ensures
        exists|i: int| 0 <= i < s.len() && s[i].1 == seq_lookup(s, k)->Some_0,
    decreases s.len(),
{
    if s.len() > 0 && s[0].0 != k {
        lemma_seq_lookup_member(s.drop_first(), k);
        let i = choose|i: int|
            0 <= i < s.drop_first().len() && s.drop_first()[i].1 == seq_lookup(s, k)->Some_0;
        assert(s[i + 1].1 == seq_lookup(s, k)->Some_0);
    }
}

/// A walk over synced resources emits no call, declares nothing, and
/// initializes nothing.
pub proof fn lemma_synced_walk_is_silent(
    world: FieldElement,
    s: Seq<(FieldElement, ResourceDiff)>,
    cfg: Seq<(String, Vec<String>)>,
)
    requires
        forall|i: int| 0 <= i < s.len() ==> (#[trigger] s[i]).1 is Synced,
        forall|i: int|
            0 <= i < s.len() ==> match (#[trigger] s[i]).1 {
                ResourceDiff::Synced(ResourceRemote::Contract(r)) => r.is_initialized,
                _ => true,
            },
    ensures
        resources_calls(world, s) =~= Seq::<CallModel>::empty(),
        classes_of(s) =~= Seq::<(FieldElement, Seq<u8>)>::empty(),
        init_calls_of(world, s, cfg) == Ok::<Seq<CallModel>, MigrationError>(Seq::empty()),
    decreases s.len(),
{
    if s.len() > 0 {
        assert forall|i: int|
            0 <= i < s.drop_last().len() implies (#[trigger] s.drop_last()[i]).1 is Synced by {
            assert(s.drop_last()[i] == s[i]);
        }
        assert forall|i: int|
            0 <= i < s.drop_last().len() implies match (#[trigger] s.drop_last()[i]).1 {
                ResourceDiff::Synced(ResourceRemote::Contract(r)) => r.is_initialized,
                _ => true,
            } by {
            assert(s.drop_last()[i] == s[i]);
        }
        lemma_synced_walk_is_silent(world, s.drop_last(), cfg);
        assert(s.last() == s[s.len() - 1]);
        assert(resource_calls_of(world, s.last().1) =~= Seq::<CallModel>::empty());
        assert(resource_class_of(s.last().1) is None);
        assert(init_target(s.last().1) is None);
    }
}

/// Namespace registration against synced resources emits nothing: every
/// namespace the diff lists is already registered.
pub proof fn lemma_synced_namespaces_are_silent(
    world: FieldElement,
    ns: Seq<FieldElement>,
    resources: Seq<(FieldElement, ResourceDiff)>,
)
    requires
        forall|i: int| 0 <= i < resources.len() ==> (#[trigger] resources[i]).1 is Synced,
    ensures
        namespaces_calls(world, ns, resources) =~= Seq::<CallModel>::empty(),
    decreases ns.len(),
{
    if ns.len() > 0 {
        lemma_synced_namespaces_are_silent(world, ns.drop_last(), resources);
        match seq_lookup(resources, ns.last()) {
            Some(d) => {
                lemma_seq_lookup_member(resources, ns.last());
                assert(namespace_call_of(world, Some(d)) =~= Seq::<CallModel>::empty());
            },
            None => {},
        }
    }
}

/// Idempotence: a migration against a fully synced remote state — the
/// state the diff reports right after a successful run — submits zero
/// operations in every phase and succeeds.
pub proof fn lemma_migrate_idempotent(m: &Migration, outcomes: Seq<SubmitOutcome>, start: int)
    requires
        fully_synced(m),
    ensures
        migrate_ops(m, outcomes, start) =~= Seq::<ChainOpModel>::empty(),
        migrate_result(m, outcomes, start) == Ok::<FieldElement, MigrationError>(m.world_address),
{
    lemma_synced_walk_is_silent(m.world_address, m.diff.resources@, m.profile_config.init_call_args@);
    lemma_synced_namespaces_are_silent(m.world_address, m.diff.namespaces@, m.diff.resources@);
    assert(phase1_ops(m, outcomes, start) =~= Seq::<ChainOpModel>::empty());
    assert(phase2_calls(m) =~= Seq::<CallModel>::empty());
    assert(phase2_classes(m) =~= Seq::<(FieldElement, Seq<u8>)>::empty());
    assert(declare_ops(phase2_classes(m)).len() == 0);
    assert(first_rejection(outcomes, start, 0) is None);
    assert(declare_ops(phase2_classes(m)).take(0) =~= Seq::<ChainOpModel>::empty());
    assert(batch_ops_m(phase2_calls(m), m.spec_do_multicall(), outcomes, start)
        =~= Seq::<ChainOpModel>::empty()) by {
        if !m.spec_do_multicall() {
            assert(invoke_ops_m(phase2_calls(m)).take(0) =~= Seq::<ChainOpModel>::empty());
        }
    }
    assert(phase2_ops(m, outcomes, start) =~= Seq::<ChainOpModel>::empty());
    assert(phase2_result(m, outcomes, start) == Ok::<(), MigrationError>(()));
    assert(phase3_calls(m) == Ok::<Seq<CallModel>, MigrationError>(
        Seq::empty() + Seq::<CallModel>::empty(),
    ));
    assert(Seq::<CallModel>::empty() + Seq::<CallModel>::empty() =~= Seq::<CallModel>::empty());
    assert(batch_ops_m(Seq::<CallModel>::empty(), m.spec_do_multicall(), outcomes, start)
        =~= Seq::<ChainOpModel>::empty()) by {
        if !m.spec_do_multicall() {
            assert(invoke_ops_m(Seq::<CallModel>::empty()).take(0)
                =~= Seq::<ChainOpModel>::empty());
        }
    }
    assert(phase3_ops(m, outcomes, start) =~= Seq::<ChainOpModel>::empty());
    assert(phase3_result(m, outcomes, start) == Ok::<(), MigrationError>(()));
    assert(phase4_ops(m, outcomes, start) =~= Seq::<ChainOpModel>::empty());
    assert(phase4_result(m, outcomes, start) == Ok::<(), MigrationError>(()));
    assert(migrate_ops(m, outcomes, start) =~= Seq::<ChainOpModel>::empty());
}

} // verus!
