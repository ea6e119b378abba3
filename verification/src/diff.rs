//! The resource diff model: the tri-state comparison of each declared
//! resource with its remote counterpart, plus the aggregate world diff the
//! orchestrator walks. The diff is computed outside the engine and consumed
//! read-only; one migration run owns one diff for its whole duration.

use vstd::prelude::*;

use crate::chain::{compute_contract_address, deployed_address};
use crate::felt::FieldElement;

verus! {

/// The closed set of resource kinds the world manages.
#[derive(PartialEq, Eq, Structural, Clone, Copy, Debug)]
pub enum ResourceKind {
    Namespace,
    Contract,
    Model,
    Event,
}

/// A namespace as locally declared.
#[derive(PartialEq, Eq, Debug)]
pub struct NamespaceLocal {
    pub name: String,
    pub selector: FieldElement,
}

/// A locally declared resource backed by compiled code: a contract, model
/// or event. `selector` is the numeric identifier derived from the tag,
/// `class_hash` identifies the code definition, `casm_class_hash` is the
/// content-derived identifier of the compiled artifact, and `artifact` is
/// the compiled payload submitted on declaration.
#[derive(PartialEq, Eq, Debug)]
pub struct ClassResource {
    pub tag: String,
    pub namespace: String,
    pub selector: FieldElement,
    pub class_hash: FieldElement,
    pub casm_class_hash: FieldElement,
    pub artifact: Vec<u8>,
}

/// A resource as locally declared.
#[derive(PartialEq, Eq, Debug)]
pub enum ResourceLocal {
    Namespace(NamespaceLocal),
    Contract(ClassResource),
    Model(ClassResource),
    Event(ClassResource),
}

/// A namespace as observed on chain.
#[derive(PartialEq, Eq, Debug)]
pub struct NamespaceRemote {
    pub name: String,
    pub selector: FieldElement,
}

/// A contract as observed on chain. `original_class_hash` is the class it
/// was first deployed with — its address derives from that hash — and
/// `is_initialized` records whether its one-time initialization already ran.
#[derive(PartialEq, Eq, Debug)]
pub struct ContractRemote {
    pub tag: String,
    pub selector: FieldElement,
    pub class_hash: FieldElement,
    pub original_class_hash: FieldElement,
    pub is_initialized: bool,
}

/// A model or event as observed on chain.
#[derive(PartialEq, Eq, Debug)]
pub struct ClassRemote {
    pub selector: FieldElement,
    pub class_hash: FieldElement,
}

/// A resource as observed on chain.
#[derive(PartialEq, Eq, Debug)]
pub enum ResourceRemote {
    Namespace(NamespaceRemote),
    Contract(ContractRemote),
    Model(ClassRemote),
    Event(ClassRemote),
}

/// The tri-state diff of one resource: exactly one variant applies, and the
/// variant determines which operations, if any, the resource produces.
#[derive(PartialEq, Eq, Debug)]
pub enum ResourceDiff {
    /// Declared locally, absent remotely.
    Created(ResourceLocal),
    /// Present in both, with a differing class.
    Updated(ResourceLocal, ResourceRemote),
    /// Present in both and identical.
    Synced(ResourceRemote),
}

/// The state of the world contract itself; it drives the first phase only.
#[derive(PartialEq, Eq, Debug)]
pub enum WorldStatus {
    /// Not deployed, and no class information to deploy it from.
    NotDeployed,
    /// The world's own class changed: class hash, compiled-class hash and
    /// compiled artifact to declare and deploy.
    NewVersion(FieldElement, FieldElement, Vec<u8>),
    /// Deployed and identical.
    Synced,
}

/// One locally declared permission entry: for one target resource, the
/// grantees that should hold the permission, each named by resource
/// selector together with its human-readable tag.
#[derive(PartialEq, Eq, Debug)]
pub struct PermissionGrant {
    pub target_selector: FieldElement,
    pub target_tag: String,
    pub grantees: Vec<(FieldElement, String)>,
}

/// The aggregate diff one migration run consumes: world status, the ordered
/// namespace selectors, the ordered resource map, and the permission sets
/// observed on chain (already address-keyed).
#[derive(PartialEq, Eq, Debug)]
pub struct WorldDiff {
    pub world_status: WorldStatus,
    pub namespaces: Vec<FieldElement>,
    pub resources: Vec<(FieldElement, ResourceDiff)>,
    pub remote_writers: Vec<(FieldElement, Vec<FieldElement>)>,
    pub remote_owners: Vec<(FieldElement, Vec<FieldElement>)>,
}

impl ResourceLocal {
    /// The kind of this resource.
    pub open spec fn kind(&self) -> ResourceKind {
        match *self {
            ResourceLocal::Namespace(_) => ResourceKind::Namespace,
            ResourceLocal::Contract(_) => ResourceKind::Contract,
            ResourceLocal::Model(_) => ResourceKind::Model,
            ResourceLocal::Event(_) => ResourceKind::Event,
        }
    }

    /// The selector identifying this resource.
    pub open spec fn selector(&self) -> FieldElement {
        match *self {
            ResourceLocal::Namespace(n) => n.selector,
            ResourceLocal::Contract(c) => c.selector,
            ResourceLocal::Model(c) => c.selector,
            ResourceLocal::Event(c) => c.selector,
        }
    }
}

impl ResourceRemote {
    /// The kind of this resource.
    pub open spec fn kind(&self) -> ResourceKind {
        match *self {
            ResourceRemote::Namespace(_) => ResourceKind::Namespace,
            ResourceRemote::Contract(_) => ResourceKind::Contract,
            ResourceRemote::Model(_) => ResourceKind::Model,
            ResourceRemote::Event(_) => ResourceKind::Event,
        }
    }

    /// The selector identifying this resource.
    pub open spec fn selector(&self) -> FieldElement {
        match *self {
            ResourceRemote::Namespace(n) => n.selector,
            ResourceRemote::Contract(c) => c.selector,
            ResourceRemote::Model(c) => c.selector,
            ResourceRemote::Event(c) => c.selector,
        }
    }
}

impl ResourceLocal {
    /// The kind of this resource, as a value.
    pub fn resource_type(&self) -> (k: ResourceKind)
        ensures
            k == self.kind(),
    {
        match self {
            ResourceLocal::Namespace(_) => ResourceKind::Namespace,
            ResourceLocal::Contract(_) => ResourceKind::Contract,
            ResourceLocal::Model(_) => ResourceKind::Model,
            ResourceLocal::Event(_) => ResourceKind::Event,
        }
    }
}

impl ResourceRemote {
    /// The kind of this resource, as a value.
    pub fn resource_type(&self) -> (k: ResourceKind)
        ensures
            k == self.kind(),
    {
        match self {
            ResourceRemote::Namespace(_) => ResourceKind::Namespace,
            ResourceRemote::Contract(_) => ResourceKind::Contract,
            ResourceRemote::Model(_) => ResourceKind::Model,
            ResourceRemote::Event(_) => ResourceKind::Event,
        }
    }
}

impl ResourceDiff {
    /// The kind of the diffed resource, as a value.
    pub fn resource_type(&self) -> (k: ResourceKind)
        ensures
            k == self.kind(),
    {
        match self {
            ResourceDiff::Created(l) => l.resource_type(),
            ResourceDiff::Updated(l, _) => l.resource_type(),
            ResourceDiff::Synced(r) => r.resource_type(),
        }
    }

    /// The selector of the diffed resource, as a value.
    pub fn dojo_selector(&self) -> (s: FieldElement)
        ensures
            s == self.selector(),
    {
        match self {
            ResourceDiff::Created(l) => match l {
                ResourceLocal::Namespace(n) => n.selector,
                ResourceLocal::Contract(c) => c.selector,
                ResourceLocal::Model(c) => c.selector,
                ResourceLocal::Event(c) => c.selector,
            },
            ResourceDiff::Updated(l, _) => match l {
                ResourceLocal::Namespace(n) => n.selector,
                ResourceLocal::Contract(c) => c.selector,
                ResourceLocal::Model(c) => c.selector,
                ResourceLocal::Event(c) => c.selector,
            },
            ResourceDiff::Synced(r) => match r {
                ResourceRemote::Namespace(n) => n.selector,
                ResourceRemote::Contract(c) => c.selector,
                ResourceRemote::Model(c) => c.selector,
                ResourceRemote::Event(c) => c.selector,
            },
        }
    }
}

impl ResourceDiff {
    /// The kind of the diffed resource.
    pub open spec fn kind(&self) -> ResourceKind {
        match *self {
            ResourceDiff::Created(l) => l.kind(),
            ResourceDiff::Updated(l, _) => l.kind(),
            ResourceDiff::Synced(r) => r.kind(),
        }
    }

    /// The selector of the diffed resource.
    pub open spec fn selector(&self) -> FieldElement {
        match *self {
            ResourceDiff::Created(l) => l.selector(),
            ResourceDiff::Updated(l, _) => l.selector(),
            ResourceDiff::Synced(r) => r.selector(),
        }
    }
}

/// True where some entry of an association list carries this key.
pub open spec fn seq_has_key<T>(s: Seq<(FieldElement, T)>, k: FieldElement) -> bool {
    exists|i: int| 0 <= i < s.len() && s[i].0 == k
}

/// First-match lookup in an association list.
pub open spec fn seq_lookup<T>(s: Seq<(FieldElement, T)>, k: FieldElement) -> Option<T>
    decreases s.len(),
{
    if s.len() == 0 {
        None
    } else if s[0].0 == k {
        Some(s[0].1)
    } else {
        seq_lookup(s.drop_first(), k)
    }
}

/// The first entry carrying a key is what lookup finds.
pub proof fn lemma_seq_lookup_first<T>(s: Seq<(FieldElement, T)>, k: FieldElement, i: int)
    requires
        0 <= i < s.len(),
        s[i].0 == k,
        forall|j: int| 0 <= j < i ==> s[j].0 != k,
    ensures
        seq_lookup(s, k) == Some(s[i].1),
    decreases i,
{
    if i > 0 {
        assert(s[0].0 != k);
        assert forall|j: int| 0 <= j < i - 1 implies s.drop_first()[j].0 != k by {
            assert(s.drop_first()[j] == s[j + 1]);
        }
        assert(s.drop_first()[i - 1] == s[i]);
        lemma_seq_lookup_first(s.drop_first(), k, i - 1);
    }
}

/// Lookup of an absent key finds nothing.
pub proof fn lemma_seq_lookup_none<T>(s: Seq<(FieldElement, T)>, k: FieldElement)
    requires
        !seq_has_key(s, k),
    ensures
        seq_lookup(s, k) is None,
    decreases s.len(),
{
    if s.len() > 0 {
        assert(s[0].0 != k);
        if seq_has_key(s.drop_first(), k) {
            let j = choose|j: int| 0 <= j < s.drop_first().len() && s.drop_first()[j].0 == k;
            assert(s[j + 1] == s.drop_first()[j]);
            assert(false);
        }
        lemma_seq_lookup_none(s.drop_first(), k);
    }
}

/// Linear search of an association list: the index of the first entry with
/// this key, `None` where the key is absent.
pub fn find_entry<T>(v: &Vec<(FieldElement, T)>, k: &FieldElement) -> (r: Option<usize>)
    ensures
        r matches Some(i) ==> (i < v@.len() && v@[i as int].0 == *k && seq_lookup(v@, *k)
            == Some(v@[i as int].1)),
        r is None ==> (seq_lookup(v@, *k) is None && !seq_has_key(v@, *k)),
{
    let mut i: usize = 0;
    while i < v.len()
        invariant
            i <= v@.len(),
            forall|j: int| 0 <= j < i ==> v@[j].0 != *k,
        decreases v@.len() - i,
    {
        if v[i].0 == *k {
            proof {
                lemma_seq_lookup_first(v@, *k, i as int);
            }
            return Some(i);
        }
        i += 1;
    }
    proof {
        if seq_has_key(v@, *k) {
            let j = choose|j: int| 0 <= j < v@.len() && v@[j].0 == *k;
            assert(false);
        }
        lemma_seq_lookup_none(v@, *k);
    }
    None
}

/// The selector and base class hash of a contract resource: the class the
/// contract's deterministic address derives from. For a contract not yet
/// deployed that is its local class; for a deployed one, the class it was
/// originally deployed with.
pub open spec fn contract_base(d: ResourceDiff) -> Option<(FieldElement, FieldElement)> {
    match d {
        ResourceDiff::Created(ResourceLocal::Contract(c)) => Some((c.selector, c.class_hash)),
        ResourceDiff::Updated(_, ResourceRemote::Contract(r)) => Some(
            (r.selector, r.original_class_hash),
        ),
        ResourceDiff::Synced(ResourceRemote::Contract(r)) => Some(
            (r.selector, r.original_class_hash),
        ),
        _ => None,
    }
}

/// The deterministic address map of every contract in the diff: for each
/// contract resource in map order, its selector paired with the address
/// derived from the selector as salt, the base class hash, no constructor
/// calldata, and the world as deployer.
pub open spec fn contract_addresses_of(
    s: Seq<(FieldElement, ResourceDiff)>,
    world: FieldElement,
) -> Seq<(FieldElement, FieldElement)>
    decreases s.len(),
{
    if s.len() == 0 {
        Seq::empty()
    } else {
        contract_addresses_of(s.drop_last(), world) + (match contract_base(s.last().1) {
            Some((sel, h)) => seq![(sel, deployed_address(sel, h, Seq::empty(), world))],
            None => Seq::empty(),
        })
    }
}

impl WorldDiff {
    /// A well-formed diff: resource keys are unique and agree with the
    /// selector of the resource they map to, an updated resource keeps its
    /// kind, and every listed namespace selector is present in the map.
    pub open spec fn wf(&self) -> bool {
        &&& forall|i: int, j: int|
            0 <= i < j < self.resources@.len() ==> self.resources@[i].0 != self.resources@[j].0
        &&& forall|i: int|
            0 <= i < self.resources@.len() ==> (#[trigger] self.resources@[i]).1.selector()
                == self.resources@[i].0
        &&& forall|i: int|
            0 <= i < self.resources@.len() ==> match (#[trigger] self.resources@[i]).1 {
                ResourceDiff::Updated(l, r) => l.kind() == r.kind(),
                _ => true,
            }
        &&& forall|i: int|
            0 <= i < self.namespaces@.len() ==> seq_has_key(
                self.resources@,
                #[trigger] self.namespaces@[i],
            )
    }

    /// Decide well-formedness, so an unverified caller can test it before
    /// starting a migration.
    pub fn check_wf(&self) -> (r: bool)
        ensures
            r == self.wf(),
    {
        let n = self.resources.len();
        let mut i: usize = 0;
        while i < n
            invariant
                n == self.resources@.len(),
                i <= n,
                forall|a: int, b: int|
                    0 <= a < b < n && a < i ==> self.resources@[a].0 != self.resources@[b].0,
            decreases n - i,
        {
            let mut j: usize = i + 1;
            while j < n
                invariant
                    n == self.resources@.len(),
                    i < n,
                    i < j <= n,
                    forall|b: int|
                        i < b < j ==> self.resources@[i as int].0 != self.resources@[b].0,
                decreases n - j,
            {
                if self.resources[i].0 == self.resources[j].0 {
                    proof {
                        assert(!self.wf());
                    }
                    return false;
                }
                j += 1;
            }
            i += 1;
        }
        let mut i2: usize = 0;
        while i2 < n
            invariant
                n == self.resources@.len(),
                i2 <= n,
                forall|a: int|
                    0 <= a < i2 ==> (#[trigger] self.resources@[a]).1.selector()
                        == self.resources@[a].0,
                forall|a: int|
                    0 <= a < i2 ==> match (#[trigger] self.resources@[a]).1 {
                        ResourceDiff::Updated(l, r) => l.kind() == r.kind(),
                        _ => true,
                    },
            decreases n - i2,
        {
            let entry = &self.resources[i2];
            if entry.1.dojo_selector() != entry.0 {
                proof {
                    assert(!self.wf());
                }
                return false;
            }
            match &entry.1 {
                ResourceDiff::Updated(l, rr) => {
                    if l.resource_type() != rr.resource_type() {
                        proof {
                            assert(!self.wf());
                        }
                        return false;
                    }
                },
                _ => {},
            }
            i2 += 1;
        }
        let mut k: usize = 0;
        while k < self.namespaces.len()
            invariant
                k <= self.namespaces@.len(),
                forall|a: int|
                    0 <= a < k ==> seq_has_key(self.resources@, #[trigger] self.namespaces@[a]),
            decreases self.namespaces@.len() - k,
        {
            match find_entry(&self.resources, &self.namespaces[k]) {
                None => {
                    proof {
                        assert(!self.wf());
                    }
                    return false;
                },
                Some(_) => {},
            }
            k += 1;
        }
        true
    }

    /// The deterministic address of every contract in the diff, in map
    /// order: contract addresses are looked up from the platform's address
    /// derivation, not guessed.
    pub fn get_contracts_addresses(&self, world_address: FieldElement) -> (r: Vec<
        (FieldElement, FieldElement),
    >)
        ensures
            r@ == contract_addresses_of(self.resources@, world_address),
    {
        let mut r: Vec<(FieldElement, FieldElement)> = Vec::new();
        let empty_cd: Vec<FieldElement> = Vec::new();
        let mut i: usize = 0;
        while i < self.resources.len()
            invariant
                i <= self.resources@.len(),
                empty_cd@ =~= Seq::<FieldElement>::empty(),
                r@ =~= contract_addresses_of(self.resources@.take(i as int), world_address),
            decreases self.resources@.len() - i,
        {
            proof {
                assert(self.resources@.take(i + 1).drop_last() =~= self.resources@.take(i as int));
                assert(self.resources@.take(i + 1).last() == self.resources@[i as int]);
            }
            match &self.resources[i].1 {
                ResourceDiff::Created(ResourceLocal::Contract(c)) => {
                    let a = compute_contract_address(
                        &c.selector,
                        &c.class_hash,
                        &empty_cd,
                        &world_address,
                    );
                    r.push((c.selector, a));
                },
                ResourceDiff::Updated(_, ResourceRemote::Contract(rc)) => {
                    let a = compute_contract_address(
                        &rc.selector,
                        &rc.original_class_hash,
                        &empty_cd,
                        &world_address,
                    );
                    r.push((rc.selector, a));
                },
                ResourceDiff::Synced(ResourceRemote::Contract(rc)) => {
                    let a = compute_contract_address(
                        &rc.selector,
                        &rc.original_class_hash,
                        &empty_cd,
                        &world_address,
                    );
                    r.push((rc.selector, a));
                },
                _ => {},
            }
            i += 1;
        }
        proof {
            assert(self.resources@.take(self.resources@.len() as int) =~= self.resources@);
        }
        r
    }
}

} // verus!
