//! The permission reconciler: compares desired local grants against the
//! grants observed on chain and emits only the missing grant calls.
//!
//! Reconciliation is strictly additive: grants present remotely but absent
//! locally are left untouched — no revocation occurs. That is a documented
//! limitation of the engine, not an accident, and it is what the
//! monotonicity law at the bottom of this module states.

use vstd::prelude::*;

use crate::call::{call_views, Call, CallModel};
use crate::diff::{find_entry, seq_lookup, PermissionGrant};
use crate::error::MigrationError;
use crate::felt::FieldElement;

verus! {

/// True where the remote permission set for `target` already contains
/// `addr`; a target absent from the map holds the empty set.
pub open spec fn remote_contains(
    remote: Seq<(FieldElement, Vec<FieldElement>)>,
    target: FieldElement,
    addr: FieldElement,
) -> bool {
    match seq_lookup(remote, target) {
        Some(set) => set@.contains(addr),
        None => false,
    }
}

/// One grant call: the entry point applied to the target selector and the
/// grantee's resolved address.
pub open spec fn grant_call_model(
    world: FieldElement,
    ep: Seq<char>,
    target: FieldElement,
    addr: FieldElement,
) -> CallModel {
    CallModel { to: world, entrypoint: ep, calldata: seq![target, addr] }
}

/// The missing grant calls of one local permission entry, in grantee
/// order: a grantee selector that resolves to no address is a fatal
/// configuration error naming the grantee's tag; a resolved address already
/// granted remotely emits nothing.
pub open spec fn grantee_calls(
    world: FieldElement,
    ep: Seq<char>,
    target: FieldElement,
    grantees: Seq<(FieldElement, String)>,
    remote: Seq<(FieldElement, Vec<FieldElement>)>,
    addrs: Seq<(FieldElement, FieldElement)>,
) -> Result<Seq<CallModel>, MigrationError>
    decreases grantees.len(),
{
    if grantees.len() == 0 {
        Ok(Seq::empty())
    } else {
        match grantee_calls(world, ep, target, grantees.drop_last(), remote, addrs) {
            Err(e) => Err(e),
            Ok(pre) => match seq_lookup(addrs, grantees.last().0) {
                None => Err(MigrationError::OrphanSelectorAddress(grantees.last().1)),
                Some(addr) => if remote_contains(remote, target, addr) {
                    Ok(pre)
                } else {
                    Ok(pre.push(grant_call_model(world, ep, target, addr)))
                },
            },
        }
    }
}

/// The missing grant calls of a whole permission set, one local entry after
/// the other; the first unresolvable grantee aborts with its tag.
pub open spec fn grant_calls(
    world: FieldElement,
    ep: Seq<char>,
    grants: Seq<PermissionGrant>,
    remote: Seq<(FieldElement, Vec<FieldElement>)>,
    addrs: Seq<(FieldElement, FieldElement)>,
) -> Result<Seq<CallModel>, MigrationError>
    decreases grants.len(),
{
    if grants.len() == 0 {
        Ok(Seq::empty())
    } else {
        match grant_calls(world, ep, grants.drop_last(), remote, addrs) {
            Err(e) => Err(e),
            Ok(pre) => match grantee_calls(
                world,
                ep,
                grants.last().target_selector,
                grants.last().grantees@,
                remote,
                addrs,
            ) {
                Err(e) => Err(e),
                Ok(more) => Ok(pre + more),
            },
        }
    }
}

/// True where the remote permission set for `target` contains `addr`.
pub fn remote_has(
    remote: &Vec<(FieldElement, Vec<FieldElement>)>,
    target: &FieldElement,
    addr: &FieldElement,
) -> (r: bool)
    ensures
        r == remote_contains(remote@, *target, *addr),
{
    match find_entry(remote, target) {
        None => false,
        Some(i) => {
            let set = &remote[i].1;
            proof {
                assert(seq_lookup(remote@, *target) == Some(remote@[i as int].1));
                assert(*set == remote@[i as int].1);
            }
            let mut j: usize = 0;
            while j < set.len()
                invariant
                    j <= set@.len(),
                    i < remote@.len(),
                    *set == remote@[i as int].1,
                    seq_lookup(remote@, *target) == Some(remote@[i as int].1),
                    forall|m: int| 0 <= m < j ==> set@[m] != *addr,
                decreases set@.len() - j,
            {
                if set[j].hi == addr.hi && set[j].lo == addr.lo {
                    proof {
                        assert(set@[j as int] == *addr);
                        assert(remote@[i as int].1@[j as int] == *addr);
                        assert(remote@[i as int].1@.contains(*addr));
                        assert(remote_contains(remote@, *target, *addr));
                    }
                    return true;
                }
                j += 1;
            }
            proof {
                if remote_contains(remote@, *target, *addr) {
                    assert(remote@[i as int].1@.contains(*addr));
                    let m = choose|m: int|
                        0 <= m < remote@[i as int].1@.len() && remote@[i as int].1@[m] == *addr;
                    assert(set@[m] == *addr);
                    assert(false);
                }
            }
            false
        },
    }
}

/// For each local (target, grantee) pair whose resolved address is absent
/// from the remote grant set for that target, emit one grant call; grants
/// already present remotely emit nothing, and nothing is ever revoked. An
/// unresolvable grantee is a fatal configuration error, returned before any
/// network operation.
pub fn missing_grants(
    world: FieldElement,
    entrypoint: &str,
    grants: &Vec<PermissionGrant>,
    remote: &Vec<(FieldElement, Vec<FieldElement>)>,
    addrs: &Vec<(FieldElement, FieldElement)>,
) -> (r: Result<Vec<Call>, MigrationError>)
    ensures
        r matches Ok(calls) ==> grant_calls(world, entrypoint@, grants@, remote@, addrs@) == Ok::<
            Seq<CallModel>,
            MigrationError,
        >(call_views(calls@)),
        r matches Err(e) ==> grant_calls(world, entrypoint@, grants@, remote@, addrs@) == Err::<
            Seq<CallModel>,
            MigrationError,
        >(e),
{
    let ghost ep = entrypoint@;
    let mut out: Vec<Call> = Vec::new();
    proof {
        assert(grants@.take(0) =~= Seq::<PermissionGrant>::empty());
        assert(call_views(out@) =~= Seq::<CallModel>::empty());
    }
    let mut g: usize = 0;
    while g < grants.len()
        invariant
            g <= grants@.len(),
            ep == entrypoint@,
            grant_calls(world, ep, grants@.take(g as int), remote@, addrs@) == Ok::<
                Seq<CallModel>,
                MigrationError,
            >(call_views(out@)),
        decreases grants@.len() - g,
    {
        let grant = &grants[g];
        let ghost pre = call_views(out@);
        let ghost target = grant.target_selector;
        proof {
            assert(grant.grantees@.take(0) =~= Seq::<(FieldElement, String)>::empty());
            assert(pre + Seq::<CallModel>::empty() =~= pre);
        }
        let mut k: usize = 0;
        while k < grant.grantees.len()
            invariant
                k <= grant.grantees@.len(),
                ep == entrypoint@,
                g < grants@.len(),
                grant == &grants@[g as int],
                target == grant.target_selector,
                grant_calls(world, ep, grants@.take(g as int), remote@, addrs@) == Ok::<
                    Seq<CallModel>,
                    MigrationError,
                >(pre),
                grantee_calls(
                    world,
                    ep,
                    target,
                    grant.grantees@.take(k as int),
                    remote@,
                    addrs@,
                ) is Ok,
                call_views(out@) == pre + grantee_calls(
                    world,
                    ep,
                    target,
                    grant.grantees@.take(k as int),
                    remote@,
                    addrs@,
                )->Ok_0,
            decreases grant.grantees@.len() - k,
        {
            let ghost ik = grantee_calls(
                world,
                ep,
                target,
                grant.grantees@.take(k as int),
                remote@,
                addrs@,
            )->Ok_0;
            proof {
                assert(grant.grantees@.take(k + 1).drop_last() =~= grant.grantees@.take(k as int));
                assert(grant.grantees@.take(k + 1).last() == grant.grantees@[k as int]);
            }
            let gsel = grant.grantees[k].0;
            match find_entry(addrs, &gsel) {
                None => {
                    proof {
                        assert(grantee_calls(
                            world,
                            ep,
                            target,
                            grant.grantees@.take(k + 1),
                            remote@,
                            addrs@,
                        ) == Err::<Seq<CallModel>, MigrationError>(
                            MigrationError::OrphanSelectorAddress(grant.grantees@[k as int].1),
                        ));
                        lemma_grantee_calls_err_persists(
                            world,
                            ep,
                            target,
                            grant.grantees@,
                            remote@,
                            addrs@,
                            k + 1,
                        );
                        assert(grants@.take(g + 1).drop_last() =~= grants@.take(g as int));
                        assert(grants@.take(g + 1).last() == grants@[g as int]);
                        lemma_grant_calls_err_persists(world, ep, grants@, remote@, addrs@, g + 1);
                    }
                    return Err(MigrationError::OrphanSelectorAddress(grant.grantees[k].1.clone()));
                },
                Some(ai) => {
                    let addr = addrs[ai].1;
                    if !remote_has(remote, &grant.target_selector, &addr) {
                        let mut calldata: Vec<FieldElement> = Vec::new();
                        calldata.push(grant.target_selector);
                        calldata.push(addr);
                        let call = Call { to: world, entrypoint: entrypoint.to_owned(), calldata };
                        let ghost c0 = call;
                        proof {
                            assert(c0@.calldata =~= seq![target, addr]);
                            assert(c0@ == grant_call_model(world, ep, target, addr));
                        }
                        let ghost prev_out = out@;
                        out.push(call);
                        proof {
                            crate::call::lemma_call_views_push(prev_out, c0);
                            assert((pre + ik).push(c0@) =~= pre + ik.push(c0@));
                            assert(call_views(out@) == pre + ik.push(
                                grant_call_model(world, ep, target, addr),
                            ));
                        }
                    }
                },
            }
            k += 1;
        }
        proof {
            assert(grant.grantees@.take(grant.grantees@.len() as int) =~= grant.grantees@);
            assert(grants@.take(g + 1).drop_last() =~= grants@.take(g as int));
            assert(grants@.take(g + 1).last() == grants@[g as int]);
        }
        g += 1;
    }
    proof {
        assert(grants@.take(grants@.len() as int) =~= grants@);
    }
    Ok(out)
}

/// An error among the first grantees of an entry decides the whole entry.
pub proof fn lemma_grantee_calls_err_persists(
    world: FieldElement,
    ep: Seq<char>,
    target: FieldElement,
    grantees: Seq<(FieldElement, String)>,
    remote: Seq<(FieldElement, Vec<FieldElement>)>,
    addrs: Seq<(FieldElement, FieldElement)>,
    m: int,
)
    requires
        0 <= m <= grantees.len(),
        grantee_calls(world, ep, target, grantees.take(m), remote, addrs) is Err,
    ensures
        grantee_calls(world, ep, target, grantees, remote, addrs) == grantee_calls(
            world,
            ep,
            target,
            grantees.take(m),
            remote,
            addrs,
        ),
    decreases grantees.len() - m,
{
    if m == grantees.len() {
        assert(grantees.take(m) =~= grantees);
    } else {
        assert(grantees.take(m + 1).drop_last() =~= grantees.take(m));
        lemma_grantee_calls_err_persists(world, ep, target, grantees, remote, addrs, m + 1);
    }
}

/// An error among the first entries of a permission set decides the whole
/// set.
pub proof fn lemma_grant_calls_err_persists(
    world: FieldElement,
    ep: Seq<char>,
    grants: Seq<PermissionGrant>,
    remote: Seq<(FieldElement, Vec<FieldElement>)>,
    addrs: Seq<(FieldElement, FieldElement)>,
    m: int,
)
    requires
        0 <= m <= grants.len(),
        grant_calls(world, ep, grants.take(m), remote, addrs) is Err,
    ensures
        grant_calls(world, ep, grants, remote, addrs) == grant_calls(
            world,
            ep,
            grants.take(m),
            remote,
            addrs,
        ),
    decreases grants.len() - m,
{
    if m == grants.len() {
        assert(grants.take(m) =~= grants);
    } else {
        assert(grants.take(m + 1).drop_last() =~= grants.take(m));
        lemma_grant_calls_err_persists(world, ep, grants, remote, addrs, m + 1);
    }
}

/// Permission reconciliation is monotonic and strictly additive: every call
/// it emits is a grant through the given entry point — never a revocation —
/// and never grants a (target, grantee) pair already present in the remote
/// set.
pub proof fn lemma_grantee_calls_monotone(
    world: FieldElement,
    ep: Seq<char>,
    target: FieldElement,
    grantees: Seq<(FieldElement, String)>,
    remote: Seq<(FieldElement, Vec<FieldElement>)>,
    addrs: Seq<(FieldElement, FieldElement)>,
)
    ensures
        grantee_calls(world, ep, target, grantees, remote, addrs) matches Ok(calls)
            ==> forall|k: int|
            0 <= k < calls.len() ==> ((#[trigger] calls[k]).to == world && calls[k].entrypoint
                == ep && calls[k].calldata.len() == 2 && calls[k].calldata[0] == target
                && !remote_contains(remote, target, calls[k].calldata[1])),
    decreases grantees.len(),
{
    if grantees.len() > 0 {
        lemma_grantee_calls_monotone(world, ep, target, grantees.drop_last(), remote, addrs);
    }
}

/// As [`lemma_grantee_calls_monotone`], for a whole permission set: every
/// emitted call grants a pair that its own target's remote set lacks, and
/// no emitted call is anything but a grant.
pub proof fn lemma_grants_monotone(
    world: FieldElement,
    ep: Seq<char>,
    grants: Seq<PermissionGrant>,
    remote: Seq<(FieldElement, Vec<FieldElement>)>,
    addrs: Seq<(FieldElement, FieldElement)>,
)
    ensures
        grant_calls(world, ep, grants, remote, addrs) matches Ok(calls) ==> forall|k: int|
            0 <= k < calls.len() ==> ((#[trigger] calls[k]).to == world && calls[k].entrypoint
                == ep && calls[k].calldata.len() == 2 && !remote_contains(
                remote,
                calls[k].calldata[0],
                calls[k].calldata[1],
            )),
    decreases grants.len(),
{
    if grants.len() > 0 {
        lemma_grants_monotone(world, ep, grants.drop_last(), remote, addrs);
        lemma_grantee_calls_monotone(
            world,
            ep,
            grants.last().target_selector,
            grants.last().grantees@,
            remote,
            addrs,
        );
    }
}

} // verus!
