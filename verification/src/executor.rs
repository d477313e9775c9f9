//! Plan execution.
//!
//! The plan is applied in stages with a strict barrier between them:
//! removals first, then fetches, then links. Remote work is deduplicated
//! by resource identity — for any number of concurrent demands with one
//! identity, the fetch runs once and every later demand awaits the first
//! outcome. A unit's failure never blocks an independent unit.

use vstd::prelude::*;
use crate::installed::InstalledDist;
use crate::name::PackageName;

verus! {

/// The shared in-flight map: the resource identities demanded so far.
/// Demanding an identity already present yields an await, never a second
/// fetch.
pub struct InFlight {
    keys: Vec<String>,
}

/// What a demand tells the caller to do.
#[derive(PartialEq, Eq, Structural)]
pub enum Demand {
    /// First demand for this identity: perform the fetch.
    Fetch,
    /// The identity is already being fetched: await that outcome.
    Await,
}

impl InFlight {
    /// The identities demanded so far.
    pub closed spec fn view(&self) -> Seq<Seq<char>> {
        self.keys@.map_values(|k: String| k@)
    }

    /// An empty in-flight map.
    pub fn new() -> (r: InFlight)
        ensures
            r@ =~= Seq::<Seq<char>>::empty(),
    {
        let r = InFlight { keys: Vec::new() };
        proof {
            assert(r@ =~= Seq::<Seq<char>>::empty());
        }
        r
    }

    /// Demand the resource with this identity. The first demand — and only
    /// the first — is told to fetch; every later demand for the same
    /// identity awaits it.
    pub fn demand(&mut self, key: &str) -> (r: Demand)
        ensures
            r == Demand::Fetch <==> !old(self)@.contains(key@),
            final(self)@ == old(self)@.push(key@) || (r == Demand::Await && final(self)@ == old(
                self,
            )@),
            final(self)@.contains(key@),
            forall|k: Seq<char>| old(self)@.contains(k) ==> final(self)@.contains(k),
    {
        let mut i: usize = 0;
        let n = self.keys.len();
        while i < n
            invariant
                i <= n,
                n == self.keys@.len(),
                forall|j: int| 0 <= j < i ==> #[trigger] self.keys@[j]@ != key@,
        decreases n - i,
        {
            if crate::strutil::str_eq(self.keys[i].as_str(), key) {
                proof {
                    assert(self@[i as int] == key@);
                    assert(self@.contains(key@));
                }
                return Demand::Await;
            }
            i = i + 1;
        }
        proof {
            if self@.contains(key@) {
                let j = choose|j: int| 0 <= j < self@.len() && self@[j] == key@;
                assert(self.keys@[j]@ == key@);
                assert(false);
            }
        }
        let ghost before = self@;
        self.keys.push(key.to_owned());
        proof {
            assert(self@ =~= before.push(key@));
            assert(self@[before.len() as int] == key@);
            assert forall|k: Seq<char>| before.contains(k) implies self@.contains(k) by {
                let j = choose|j: int| 0 <= j < before.len() && before[j] == k;
                assert(self@[j] == k);
            }
        }
        Demand::Fetch
    }
}

/// Two demands for one identity never both fetch: whichever comes second
/// finds the identity present and awaits.
pub proof fn lemma_at_most_once_fetch(mid: &InFlight, r1: Demand, r2: Demand, key: Seq<char>)
    requires
        r1 == Demand::Fetch,
        mid@.contains(key),
        r2 == Demand::Fetch <==> !mid@.contains(key),
    ensures
        r2 == Demand::Await,
{
}

/// The environment: the installed distributions, one per package name.
pub struct Environment {
    installed: Vec<InstalledDist>,
}

impl Environment {
    pub closed spec fn view(&self) -> Seq<InstalledDist> {
        self.installed@
    }

    /// The environment never holds two installs for one package name.
    pub open spec fn wf(&self) -> bool {
        forall|i: int, j: int| 0 <= i < j < self@.len() ==> (#[trigger] self@[i]).name@ != (
        #[trigger] self@[j]).name@
    }

    /// Whether a package of this name is installed.
    pub open spec fn spec_has(&self, n: Seq<char>) -> bool {
        exists|i: int| 0 <= i < self@.len() && (#[trigger] self@[i]).name@ == n
    }

    /// Take over the given site state.
    pub fn from_site(installed: Vec<InstalledDist>) -> (r: Environment)
        requires
            forall|i: int, j: int| 0 <= i < j < installed@.len() ==> (
            #[trigger] installed@[i]).name@ != (#[trigger] installed@[j]).name@,
        ensures
            r@ == installed@,
            r.wf(),
    {
        Environment { installed }
    }

    /// The installed distributions.
    pub fn entries(&self) -> (r: &Vec<InstalledDist>)
        ensures
            r@ == self@,
    {
        &self.installed
    }

    /// Whether a package of this name is installed.
    pub fn has(&self, n: &PackageName) -> (r: bool)
        ensures
            r == self.spec_has(n@),
    {
        let mut i: usize = 0;
        while i < self.installed.len()
            invariant
                i <= self@.len(),
                forall|j: int| 0 <= j < i ==> (#[trigger] self@[j]).name@ != n@,
            decreases self@.len() - i,
        {
            if self.installed[i].name.same(n) {
                return true;
            }
            i = i + 1;
        }
        proof {
            if self.spec_has(n@) {
                let j = choose|j: int| 0 <= j < self@.len() && (#[trigger] self@[j]).name@ == n@;
                assert(false);
            }
        }
        false
    }

    /// Remove the install of this name, if present. Removal never adds a
    /// name, so uniqueness is preserved.
    pub fn remove(&mut self, n: &PackageName)
        requires
            old(self).wf(),
        ensures
            final(self).wf(),
            !final(self).spec_has(n@),
            forall|m: Seq<char>| m != n@ ==> (final(self).spec_has(m) <==> old(self).spec_has(m)),
    {
        let ghost pre = self@;
        let mut i: usize = 0;
        while i < self.installed.len()
            invariant
                i <= self@.len(),
                self@ == pre,
                old(self).wf(),
                pre == old(self)@,
                forall|j: int| 0 <= j < i ==> (#[trigger] pre[j]).name@ != n@,
            decreases self@.len() - i,
        {
            if self.installed[i].name.same(n) {
                self.installed.remove(i);
                proof {
                    let post = self@;
                    assert forall|a: int, b: int| 0 <= a < b < post.len() implies (
                    #[trigger] post[a]).name@ != (#[trigger] post[b]).name@ by {
                        let a2: int = if a < i as int {
                            a
                        } else {
                            a + 1
                        };
                        let b2: int = if b < i as int {
                            b
                        } else {
                            b + 1
                        };
                        assert(post[a] == pre[a2]);
                        assert(post[b] == pre[b2]);
                    }
                    assert forall|j: int| 0 <= j < post.len() implies (#[trigger] post[j]).name@
                        != n@ by {
                        let j2: int = if j < i as int {
                            j
                        } else {
                            j + 1
                        };
                        assert(post[j] == pre[j2]);
                        if j2 != i as int {
                            if j2 < i as int {
                                assert(pre[j2].name@ != pre[i as int].name@);
                            } else {
                                assert(pre[i as int].name@ != pre[j2].name@);
                            }
                        }
                    }
                    assert(!self.spec_has(n@)) by {
                        if self.spec_has(n@) {
                            let j = choose|j: int|
                                0 <= j < post.len() && (#[trigger] post[j]).name@ == n@;
                            assert(false);
                        }
                    }
                    assert forall|m: Seq<char>| m != n@ implies (self.spec_has(m)
                        <==> old(self).spec_has(m)) by {
                        if old(self).spec_has(m) {
                            let j = choose|j: int|
                                0 <= j < pre.len() && (#[trigger] pre[j]).name@ == m;
                            if j < i as int {
                                assert(post[j] == pre[j]);
                                assert(self.spec_has(m));
                            } else {
                                assert(post[j - 1] == pre[j]);
                                assert(self.spec_has(m));
                            }
                        }
                        if self.spec_has(m) {
                            let j = choose|j: int|
                                0 <= j < post.len() && (#[trigger] post[j]).name@ == m;
                            let j2: int = if j < i as int {
                                j
                            } else {
                                j + 1
                            };
                            assert(pre[j2] == post[j]);
                            assert(old(self).spec_has(m));
                        }
                    }
                }
                return ;
            }
            i = i + 1;
        }
        proof {
            assert(self@ == old(self)@);
            assert(!self.spec_has(n@)) by {
                if self.spec_has(n@) {
                    let j = choose|j: int|
                        0 <= j < self@.len() && (#[trigger] self@[j]).name@ == n@;
                    assert(false);
                }
            }
        }
    }

    /// Install a distribution. The name must be absent — removals precede
    /// installs — so the environment never holds two installs of one name.
    pub fn install(&mut self, dist: InstalledDist)
        requires
            old(self).wf(),
            !old(self).spec_has(dist.name@),
        ensures
            final(self).wf(),
            final(self)@ == old(self)@.push(dist),
            final(self).spec_has(dist.name@),
            forall|m: Seq<char>| old(self).spec_has(m) ==> final(self).spec_has(m),
    {
        let ghost pre = self@;
        let ghost d = dist;
        self.installed.push(dist);
        proof {
            assert(self@ =~= pre.push(d));
            assert forall|a: int, b: int| 0 <= a < b < self@.len() implies (
            #[trigger] self@[a]).name@ != (#[trigger] self@[b]).name@ by {
                if b < pre.len() {
                } else {
                    assert(self@[b] == d);
                    assert(self@[a] == pre[a]);
                    if pre[a].name@ == d.name@ {
                        assert(old(self).spec_has(d.name@));
                    }
                }
            }
            assert(self@[pre.len() as int] == d);
            assert forall|m: Seq<char>| old(self).spec_has(m) implies self.spec_has(m) by {
                let j = choose|j: int| 0 <= j < pre.len() && (#[trigger] pre[j]).name@ == m;
                assert(self@[j].name@ == m);
            }
        }
    }
}

/// The stages of one sync run, in their fixed order: no link may begin
/// before every removal is done, and nothing runs after completion.
#[derive(PartialEq, Eq, Structural, Clone, Copy)]
pub enum Stage {
    Removals,
    Fetches,
    Links,
    Bytecode,
    Done,
}

/// The stage of a run. Advancing is one-way; each step names the stage it
/// leaves, so a link can never precede the end of the removals.
pub struct SyncRun {
    stage: Stage,
}

impl SyncRun {
    pub closed spec fn spec_stage(&self) -> Stage {
        self.stage
    }

    /// A run starts with the removals.
    pub fn start() -> (r: SyncRun)
        ensures
            r.spec_stage() == Stage::Removals,
    {
        SyncRun { stage: Stage::Removals }
    }

    pub fn stage(&self) -> (r: Stage)
        ensures
            r == self.spec_stage(),
    {
        self.stage
    }

    /// All removals have completed: fetches may begin.
    pub fn removals_done(&mut self)
        requires
            old(self).spec_stage() == Stage::Removals,
        ensures
            final(self).spec_stage() == Stage::Fetches,
    {
        self.stage = Stage::Fetches;
    }

    /// All fetches have completed: links may begin.
    pub fn fetches_done(&mut self)
        requires
            old(self).spec_stage() == Stage::Fetches,
        ensures
            final(self).spec_stage() == Stage::Links,
    {
        self.stage = Stage::Links;
    }

    /// All links have completed: bytecode compilation may begin.
    pub fn links_done(&mut self)
        requires
            old(self).spec_stage() == Stage::Links,
        ensures
            final(self).spec_stage() == Stage::Bytecode,
    {
        self.stage = Stage::Bytecode;
    }

    /// The run is complete.
    pub fn finish(&mut self)
        requires
            old(self).spec_stage() == Stage::Bytecode,
        ensures
            final(self).spec_stage() == Stage::Done,
    {
        self.stage = Stage::Done;
    }
}

/// The outcome of fetching one unit, as the collaborator reported it.
pub enum FetchOutcome {
    /// The artifact is ready at this path.
    Ready(String),
    /// The fetch failed with this message.
    Failed(String),
}

/// Split per-unit outcomes into the ready artifacts and the failures,
/// pairing each with its unit index. A failed unit never disturbs the
/// outcome of any other: each unit's fate depends on its own entry alone.
pub fn collect_outcomes(outcomes: Vec<FetchOutcome>) -> (r: (Vec<(usize, String)>, Vec<(
    usize,
    String,
)>))
    ensures
        forall|j: int| 0 <= j < r.0@.len() ==> (#[trigger] r.0@[j]).0 < outcomes@.len() && (
        outcomes@[r.0@[j].0 as int] matches FetchOutcome::Ready(p) && r.0@[j].1@ == p@),
        forall|j: int| 0 <= j < r.1@.len() ==> (#[trigger] r.1@[j]).0 < outcomes@.len() && (
        outcomes@[r.1@[j].0 as int] matches FetchOutcome::Failed(m) && r.1@[j].1@ == m@),
        forall|k: int|
            (0 <= k < outcomes@.len() && (#[trigger] outcomes@[k]) matches FetchOutcome::Ready(p))
                ==> exists|j: int| 0 <= j < r.0@.len() && (#[trigger] r.0@[j]).0 == k,
        forall|k: int|
            (0 <= k < outcomes@.len() && (#[trigger] outcomes@[k]) matches FetchOutcome::Failed(
                m,
            )) ==> exists|j: int| 0 <= j < r.1@.len() && (#[trigger] r.1@[j]).0 == k,
{
    let ghost o0 = outcomes@;
    let mut ready: Vec<(usize, String)> = Vec::new();
    let mut failed: Vec<(usize, String)> = Vec::new();
    let mut k: usize = 0;
    while k < outcomes.len()
        invariant
            k <= outcomes@.len(),
            o0 == outcomes@,
            forall|j: int| 0 <= j < ready@.len() ==> (#[trigger] ready@[j]).0 < k && (o0[
                ready@[j].0 as int
            ] matches FetchOutcome::Ready(p) && ready@[j].1@ == p@),
            forall|j: int| 0 <= j < failed@.len() ==> (#[trigger] failed@[j]).0 < k && (o0[
                failed@[j].0 as int
            ] matches FetchOutcome::Failed(m) && failed@[j].1@ == m@),
            forall|q: int| (0 <= q < k && (#[trigger] o0[q]) matches FetchOutcome::Ready(p))
                ==> exists|j: int| 0 <= j < ready@.len() && (#[trigger] ready@[j]).0 == q,
            forall|q: int| (0 <= q < k && (#[trigger] o0[q]) matches FetchOutcome::Failed(m))
                ==> exists|j: int| 0 <= j < failed@.len() && (#[trigger] failed@[j]).0 == q,
        decreases outcomes@.len() - k,
    {
        let ghost ready0 = ready@;
        let ghost failed0 = failed@;
        match &outcomes[k] {
            FetchOutcome::Ready(p) => {
                ready.push((k, p.clone()));
                proof {
                    assert(ready@.last().0 == k as int);
                    assert forall|q: int|
                        (0 <= q < k + 1 && (#[trigger] o0[q]) matches FetchOutcome::Ready(p2))
                            implies exists|j: int|
                        0 <= j < ready@.len() && (#[trigger] ready@[j]).0 == q by {
                        if q < k as int {
                            let j = choose|j: int|
                                0 <= j < ready0.len() && (#[trigger] ready0[j]).0 == q;
                            assert(ready@[j].0 == q);
                        } else {
                            assert(ready@[ready@.len() - 1].0 == q);
                        }
                    }
                }
            },
            FetchOutcome::Failed(m) => {
                failed.push((k, m.clone()));
                proof {
                    assert(failed@.last().0 == k as int);
                    assert forall|q: int|
                        (0 <= q < k + 1 && (#[trigger] o0[q]) matches FetchOutcome::Failed(m2))
                            implies exists|j: int|
                        0 <= j < failed@.len() && (#[trigger] failed@[j]).0 == q by {
                        if q < k as int {
                            let j = choose|j: int|
                                0 <= j < failed0.len() && (#[trigger] failed0[j]).0 == q;
                            assert(failed@[j].0 == q);
                        } else {
                            assert(failed@[failed@.len() - 1].0 == q);
                        }
                    }
                }
            },
        }
        k = k + 1;
    }
    (ready, failed)
}

} // verus!
