//! Sync orchestration decisions.
//!
//! The sync entry point alternates outside work — interpreter detection,
//! resolution, fetches, installs — with decisions. The decisions stand
//! here: whether there is anything to do, whether an externally managed
//! environment stops the run, whether the plan needs any work at all, and
//! which warnings the run must surface.

use vstd::prelude::*;
use crate::dist::{Dist, BuiltDist, SourceDist};
use crate::file::Yanked;
use crate::name::PackageName;
use crate::plan::Plan;

verus! {

/// What to do before any work starts, given how many requirement inputs
/// the specification carries.
pub enum Intake {
    /// No requirements were found: report so and exit successfully.
    NothingToDo,
    /// Go on with this many requirement inputs.
    Proceed(usize),
}

/// Count the requirement inputs and decide whether to proceed: the
/// requirements themselves, the source trees still to be resolved, and
/// the editables.
pub fn intake_decision(n_requirements: usize, n_source_trees: usize, n_editables: usize) -> (r:
    Intake)
    requires
        n_requirements + n_source_trees + n_editables <= usize::MAX,
    ensures
        r == Intake::NothingToDo <==> n_requirements + n_source_trees + n_editables == 0,
        r matches Intake::Proceed(n) ==> n == n_requirements + n_source_trees + n_editables,
{
    let total = n_requirements + n_source_trees + n_editables;
    if total == 0 {
        Intake::NothingToDo
    } else {
        Intake::Proceed(total)
    }
}

/// Whether the run may touch an externally managed environment: only when
/// the caller breaks system packages; otherwise the marker text, when the
/// environment gave one, travels with the refusal.
pub enum ManagedDecision {
    Proceed,
    Refuse(Option<String>),
}

/// Decide on an externally managed environment. `marker` is the marker
/// file's message when the environment is externally managed.
pub fn managed_decision(externally_managed: bool, marker: Option<String>, break_system_packages:
    bool) -> (r: ManagedDecision)
    ensures
        r is Proceed <==> (!externally_managed || break_system_packages),
        r matches ManagedDecision::Refuse(m) ==> externally_managed && !break_system_packages && m
            == marker,
{
    if externally_managed && !break_system_packages {
        ManagedDecision::Refuse(marker)
    } else {
        ManagedDecision::Proceed
    }
}

/// Whether the plan asks for no work at all: nothing to fetch, nothing to
/// link, nothing to remove. The environment is then merely audited.
pub fn plan_is_settled(p: &Plan) -> (r: bool)
    ensures
        r == (p.remote@.len() == 0 && p.cached@.len() == 0 && p.reinstalls@.len() == 0
            && p.extraneous@.len() == 0),
{
    p.remote.len() == 0 && p.cached.len() == 0 && p.reinstalls.len() == 0 && p.extraneous.len()
        == 0
}

/// Split resolved distributions into prebuilt archives and sources still
/// to build, in order. When builds are disallowed, only the prebuilt ones
/// go on; nothing is lost or invented.
pub fn partition_buildable(dists: Vec<Dist>) -> (r: (Vec<Dist>, Vec<Dist>))
    ensures
        forall|j: int| 0 <= j < r.0@.len() ==> (#[trigger] r.0@[j]) is Built,
        forall|j: int| 0 <= j < r.1@.len() ==> (#[trigger] r.1@[j]) is Source,
        r.0@.to_multiset().add(r.1@.to_multiset()) == dists@.to_multiset(),
{
    let ghost d0 = dists@;
    let mut built: Vec<Dist> = Vec::new();
    let mut source: Vec<Dist> = Vec::new();
    let mut dists = dists;
    proof {
        built@.to_multiset_ensures();
        source@.to_multiset_ensures();
        assert(built@.to_multiset().add(source@.to_multiset()).add(dists@.to_multiset())
            =~= d0.to_multiset());
    }
    while dists.len() > 0
        invariant
            forall|j: int| 0 <= j < built@.len() ==> (#[trigger] built@[j]) is Built,
            forall|j: int| 0 <= j < source@.len() ==> (#[trigger] source@[j]) is Source,
            built@.to_multiset().add(source@.to_multiset()).add(dists@.to_multiset())
                == d0.to_multiset(),
        decreases dists@.len(),
    {
        let ghost pre = dists@;
        let ghost b0 = built@;
        let ghost s0 = source@;
        let d = dists.remove(0);
        proof {
            assert(d == pre[0]);
            pre.to_multiset_ensures();
            b0.to_multiset_ensures();
            s0.to_multiset_ensures();
            assert(dists@.to_multiset() =~= pre.to_multiset().remove(d));
            assert(pre.to_multiset().contains(d)) by {
                assert(pre.contains(d)) by {
                    assert(pre[0] == d);
                }
            }
        }
        match d {
            Dist::Built(_) => {
                built.push(d);
                proof {
                    assert(built@.to_multiset() =~= b0.to_multiset().insert(d));
                    assert(built@.to_multiset().add(source@.to_multiset()).add(
                        dists@.to_multiset(),
                    ) =~= d0.to_multiset());
                }
            },
            Dist::Source(_) => {
                source.push(d);
                proof {
                    assert(source@.to_multiset() =~= s0.to_multiset().insert(d));
                    assert(built@.to_multiset().add(source@.to_multiset()).add(
                        dists@.to_multiset(),
                    ) =~= d0.to_multiset());
                }
            },
        }
    }
    proof {
        dists@.to_multiset_ensures();
        assert(dists@.to_multiset() =~= vstd::multiset::Multiset::empty());
        assert(built@.to_multiset().add(source@.to_multiset()) =~= d0.to_multiset());
    }
    (built, source)
}

/// A warning that a fetched distribution was withdrawn by its registry.
pub struct YankedWarning {
    pub name: PackageName,
    pub reason: Option<String>,
}

/// Whether a distribution's registry artifact is marked withdrawn.
pub open spec fn spec_yanked(d: &Dist) -> bool {
    match d {
        Dist::Built(BuiltDist::Registry(x)) => x.wheels@[
            x.best_wheel_index as int
        ].file.spec_is_yanked(),
        Dist::Source(SourceDist::Registry(x)) => x.file.spec_is_yanked(),
        _ => false,
    }
}

/// The withdrawal reason a distribution's registry recorded, if any.
pub open spec fn spec_yanked_reason(d: &Dist) -> Option<Seq<char>> {
    let yanked = match d {
        Dist::Built(BuiltDist::Registry(x)) => x.wheels@[x.best_wheel_index as int].file.yanked,
        Dist::Source(SourceDist::Registry(x)) => x.file.yanked,
        _ => None,
    };
    match yanked {
        Some(Yanked::Reason(t)) => Some(t@),
        _ => None,
    }
}

/// Whether each warning names a fetched distribution whose registry
/// withdrew its artifact, with the registry's reason, and every withdrawn
/// fetched distribution up to position `hi` is warned about.
pub open spec fn yanked_report_upto(remote: Seq<Dist>, r: Seq<YankedWarning>, hi: int) -> bool {
    &&& forall|j: int| 0 <= j < r.len() ==> exists|q: int|
        0 <= q < remote.len() && spec_yanked(#[trigger] &remote[q]) && (#[trigger] r[j]).name@
            == crate::dist::dist_name(&remote[q]) && crate::requirement::marker_view(&r[j].reason)
            == spec_yanked_reason(&remote[q])
    &&& forall|q: int| 0 <= q < hi && spec_yanked(#[trigger] &remote[q]) ==> exists|j: int|
        0 <= j < r.len() && (#[trigger] r[j]).name@ == crate::dist::dist_name(&remote[q])
}

/// Whether the warnings are exactly the withdrawn fetched distributions:
/// each warning names one with the registry's reason, and each withdrawn
/// one is warned about.
pub open spec fn yanked_report_ok(remote: Seq<Dist>, r: Seq<YankedWarning>) -> bool {
    yanked_report_upto(remote, r, remote.len() as int)
}

/// Whether a distribution's registry artifact is marked withdrawn.
pub fn is_yanked_dist(d: &Dist) -> (r: bool)
    requires
        d.wf(),
    ensures
        r == spec_yanked(d),
{
    match d.file() {
        Some(f) => f.is_yanked(),
        None => false,
    }
}

/// Collect one warning per fetched distribution whose artifact its
/// registry has withdrawn, carrying the registry's reason.
#[verifier::rlimit(100)]
pub fn yanked_warnings(remote: &Vec<Dist>) -> (r: Vec<YankedWarning>)
    requires
        forall|k: int| 0 <= k < remote@.len() ==> (#[trigger] &remote@[k]).wf(),
    ensures
        yanked_report_ok(remote@, r@),
{
    let mut r: Vec<YankedWarning> = Vec::new();
    let mut k: usize = 0;
    proof {
        assert(yanked_report_upto(remote@, r@, 0));
    }
    while k < remote.len()
        invariant
            k <= remote@.len(),
            forall|q: int| 0 <= q < remote@.len() ==> (#[trigger] &remote@[q]).wf(),
            yanked_report_upto(remote@, r@, k as int),
        decreases remote@.len() - k,
    {
        let ghost r0 = r@;
        let d = &remote[k];
        let is_yanked = is_yanked_dist(d);
        if is_yanked {
            let reason: Option<String> = match d.file() {
                Some(f) => match &f.yanked {
                    Some(Yanked::Reason(t)) => Some(t.clone()),
                    _ => None,
                },
                None => None,
            };
            proof {
                assert(spec_yanked(&remote@[k as int]));
                assert(crate::requirement::marker_view(&reason) == spec_yanked_reason(
                    &remote@[k as int],
                ));
            }
            r.push(YankedWarning { name: d.name().dup(), reason });
            proof {
                assert(r@.last().name@ == crate::dist::dist_name(&remote@[k as int]));
                assert(crate::requirement::marker_view(&r@.last().reason) == spec_yanked_reason(
                    &remote@[k as int],
                ));
                assert forall|j: int| 0 <= j < r@.len() implies exists|q: int|
                    0 <= q < remote@.len() && spec_yanked(#[trigger] &remote@[q]) && (
                    #[trigger] r@[j]).name@ == crate::dist::dist_name(&remote@[q])
                    && crate::requirement::marker_view(&r@[j].reason) == spec_yanked_reason(
                    &remote@[q],
                ) by {
                    if j < r0.len() {
                        assert(r@[j] == r0[j]);
                        let q = choose|q: int|
                            0 <= q < remote@.len() && spec_yanked(#[trigger] &remote@[q]) && (
                            r0[j]).name@ == crate::dist::dist_name(&remote@[q])
                                && crate::requirement::marker_view(&r0[j].reason)
                                == spec_yanked_reason(&remote@[q]);
                        assert(spec_yanked(&remote@[q]) && r@[j].name@ == crate::dist::dist_name(
                            &remote@[q],
                        ) && crate::requirement::marker_view(&r@[j].reason) == spec_yanked_reason(
                            &remote@[q],
                        ));
                    } else {
                        assert(spec_yanked(&remote@[k as int]) && r@[j].name@
                            == crate::dist::dist_name(&remote@[k as int])
                            && crate::requirement::marker_view(&r@[j].reason)
                            == spec_yanked_reason(&remote@[k as int]));
                    }
                }
                assert forall|q: int|
                    0 <= q < k + 1 && spec_yanked(#[trigger] &remote@[q]) implies exists|j: int|
                    0 <= j < r@.len() && (#[trigger] r@[j]).name@ == crate::dist::dist_name(
                        &remote@[q],
                    ) by {
                    if q < k as int {
                        let j = choose|j: int|
                            0 <= j < r0.len() && (#[trigger] r0[j]).name@
                                == crate::dist::dist_name(&remote@[q]);
                        assert(r@[j].name@ == crate::dist::dist_name(&remote@[q]));
                    } else {
                        assert(r@[r@.len() - 1].name@ == crate::dist::dist_name(&remote@[q]));
                    }
                }
            }
        } else {
            proof {
                assert(!spec_yanked(&remote@[k as int]));
                assert forall|q: int|
                    0 <= q < k + 1 && spec_yanked(#[trigger] &remote@[q]) implies exists|j: int|
                    0 <= j < r@.len() && (#[trigger] r@[j]).name@ == crate::dist::dist_name(
                        &remote@[q],
                    ) by {
                    assert(q < k as int);
                }
            }
        }
        k = k + 1;
    }
    proof {
        assert(k as int == remote@.len() as int);
        assert(yanked_report_upto(remote@, r@, remote@.len() as int));
    }
    r
}

} // verus!
