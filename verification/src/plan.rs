//! Installation planning.
//!
//! The desired distributions are diffed against the live environment and
//! the local artifact cache. Each desired distribution that is already
//! satisfied is skipped; an installed distribution of the same name that no
//! longer matches, or that the caller forces, is marked for reinstall; the
//! rest link from the cache when a usable artifact is there, and must be
//! fetched otherwise. Under strict sync, installed distributions nobody
//! asked for are marked extraneous.

use vstd::prelude::*;
use crate::dist::{dist_name, Dist, BuiltDist, SourceDist};
use crate::id::{dist_id_view, DistributionId};
use crate::installed::{InstalledDist, InstalledOrigin};
use crate::name::PackageName;
use crate::specification::{filter_view, PackageFilter};
use crate::url::canonical_text;
use crate::version::{rel_lt, Version};

verus! {

/// One artifact found in the local cache.
pub struct CacheEntry {
    /// The distribution identity the artifact is filed under.
    pub id: DistributionId,
    pub name: PackageName,
    pub version: Version,
    /// Where the extracted artifact lies.
    pub path: String,
    /// Whether its digests satisfy what the requirement asks.
    pub hash_ok: bool,
    /// When its directory was last touched.
    pub freshness: u64,
}

/// A distribution to be linked from the cache.
pub struct CachedDist {
    pub name: PackageName,
    pub version: Version,
    pub path: String,
}

/// The caller's reinstall policy.
pub enum Reinstall {
    NoPackages,
    AllPackages,
    Packages(Vec<PackageName>),
}

/// The four-way partition the planner produces.
pub struct Plan {
    pub cached: Vec<CachedDist>,
    pub remote: Vec<Dist>,
    pub reinstalls: Vec<InstalledDist>,
    pub extraneous: Vec<InstalledDist>,
}

/// Whether the policy forces a reinstall of this package.
pub open spec fn reinstall_req(p: &Reinstall, n: Seq<char>) -> bool {
    match p {
        Reinstall::NoPackages => false,
        Reinstall::AllPackages => true,
        Reinstall::Packages(v) => exists|i: int| 0 <= i < v@.len() && (#[trigger] v@[i])@ == n,
    }
}

/// Whether a filter bars this package.
pub open spec fn filter_blocks(f: (int, Seq<Seq<char>>), n: Seq<char>) -> bool {
    f.0 == 1 || (f.0 == 2 && f.1.contains(n))
}

/// Whether an installed distribution satisfies a desired one: same name,
/// and the origin the provenance records matches — same registry version,
/// or same canonical locator with the same editable linking.
pub open spec fn satisfies(i: &InstalledDist, d: &Dist) -> bool {
    i.name@ == dist_name(d) && match d {
        Dist::Built(BuiltDist::Registry(x)) => i.origin is Registry && i.version@ == x.wheels@[
            x.best_wheel_index as int
        ].filename.version@,
        Dist::Source(SourceDist::Registry(x)) => i.origin is Registry && i.version@ == x.version@,
        Dist::Built(BuiltDist::DirectUrl(x)) => (i.origin matches InstalledOrigin::Direct {
            url: u,
            editable,
        } && !editable && canonical_text(&u, true) == canonical_text(&x.url, true)),
        Dist::Built(BuiltDist::Path(x)) => (i.origin matches InstalledOrigin::Direct {
            url: u,
            editable,
        } && !editable && canonical_text(&u, true) == canonical_text(&x.url, true)),
        Dist::Source(SourceDist::DirectUrl(x)) => (i.origin matches InstalledOrigin::Direct {
            url: u,
            editable,
        } && !editable && canonical_text(&u, true) == canonical_text(&x.url, true)),
        Dist::Source(SourceDist::Git(x)) => (i.origin matches InstalledOrigin::Direct {
            url: u,
            editable,
        } && !editable && canonical_text(&u, true) == canonical_text(&x.url, true)),
        Dist::Source(SourceDist::Path(x)) => (i.origin matches InstalledOrigin::Direct {
            url: u,
            editable,
        } && !editable && canonical_text(&u, true) == canonical_text(&x.url, true)),
        Dist::Source(SourceDist::Directory(x)) => (i.origin matches InstalledOrigin::Direct {
            url: u,
            editable,
        } && editable == x.editable && canonical_text(&u, true) == canonical_text(&x.url, true)),
    }
}

/// Whether some desired distribution has this name.
pub open spec fn has_desired_name(n: Seq<char>, d0: Seq<Dist>) -> bool {
    exists|k: int| 0 <= k < d0.len() && dist_name(#[trigger] &d0[k]) == n
}

/// Whether an installed distribution must be removed for replacement: a
/// desired distribution carries its name, and the install no longer
/// matches it or the caller forces the reinstall.
pub open spec fn reinstall_cond(e: &InstalledDist, d0: Seq<Dist>, p: &Reinstall) -> bool {
    exists|k: int|
        0 <= k < d0.len() && dist_name(#[trigger] &d0[k]) == e.name@ && (reinstall_req(p, e.name@)
            || !satisfies(e, &d0[k]))
}

/// Whether a cache entry can serve a desired distribution: filed under its
/// identity and name, digests acceptable when required, and neither an
/// editable request nor a package barred from prebuilt artifacts.
pub open spec fn cache_candidate(
    e: &CacheEntry,
    d: &Dist,
    require_hashes: bool,
    nbv: (int, Seq<Seq<char>>),
) -> bool {
    &&& dist_id_view(&e.id) == crate::dist::spec_dist_id(d)
    &&& e.name@ == dist_name(d)
    &&& (require_hashes ==> e.hash_ok)
    &&& !(d matches Dist::Source(SourceDist::Directory(x)) && x.editable)
    &&& !filter_blocks(nbv, dist_name(d))
}

/// Whether some installed distribution satisfies the desired one.
pub open spec fn spec_satisfied(d: &Dist, s0: Seq<InstalledDist>) -> bool {
    exists|i: int| 0 <= i < s0.len() && satisfies(#[trigger] &s0[i], d)
}

/// Which class a desired distribution falls in: skipped, cached, or
/// remote.
pub open spec fn desired_class(
    d: &Dist,
    s0: Seq<InstalledDist>,
    p: &Reinstall,
    require_hashes: bool,
    nbv: (int, Seq<Seq<char>>),
    cache0: Seq<CacheEntry>,
) -> int {
    if spec_satisfied(d, s0) && !reinstall_req(p, dist_name(d)) {
        0
    } else if exists|e: int| 0 <= e < cache0.len() && cache_candidate(
        #[trigger] &cache0[e],
        d,
        require_hashes,
        nbv,
    ) {
        1
    } else {
        2
    }
}

/// Whether the policy forces a reinstall of this package.
pub fn reinstall_requested(p: &Reinstall, n: &PackageName) -> (r: bool)
    ensures
        r == reinstall_req(p, n@),
{
    match p {
        Reinstall::NoPackages => false,
        Reinstall::AllPackages => true,
        Reinstall::Packages(v) => {
            let mut i: usize = 0;
            while i < v.len()
                invariant
                    i <= v@.len(),
                    reinstall_req(p, n@) == exists|j: int|
                        0 <= j < v@.len() && (#[trigger] v@[j])@ == n@,
                    forall|j: int| 0 <= j < i ==> (#[trigger] v@[j])@ != n@,
                decreases v@.len() - i,
            {
                if v[i].same(n) {
                    proof {
                        assert((v@[i as int])@ == n@);
                    }
                    return true;
                }
                i = i + 1;
            }
            false
        },
    }
}

/// Whether a filter bars this package.
pub fn filter_bars(f: &PackageFilter, n: &PackageName) -> (r: bool)
    ensures
        r == filter_blocks(filter_view(f), n@),
{
    match f {
        PackageFilter::NoPackage => false,
        PackageFilter::AllPackages => true,
        PackageFilter::Packages(v) => {
            let mut i: usize = 0;
            while i < v.len()
                invariant
                    i <= v@.len(),
                    filter_blocks(filter_view(f), n@) == v@.map_values(
                        |x: PackageName| x@,
                    ).contains(n@),
                    forall|j: int| 0 <= j < i ==> (#[trigger] v@[j])@ != n@,
                decreases v@.len() - i,
            {
                if v[i].same(n) {
                    proof {
                        assert(v@.map_values(|x: PackageName| x@)[i as int] == n@);
                    }
                    return true;
                }
                i = i + 1;
            }
            proof {
                let fv = v@.map_values(|x: PackageName| x@);
                if fv.contains(n@) {
                    let j = choose|j: int| 0 <= j < fv.len() && fv[j] == n@;
                    assert(v@[j]@ == n@);
                    assert(false);
                }
            }
            false
        },
    }
}

/// Whether an installed distribution satisfies a desired one.
pub fn satisfies_install(i: &InstalledDist, d: &Dist) -> (r: bool)
    requires
        d.wf(),
    ensures
        r == satisfies(i, d),
{
    if !i.name.same(d.name()) {
        return false;
    }
    match d {
        Dist::Built(BuiltDist::Registry(x)) => {
            match &i.origin {
                InstalledOrigin::Registry => i.version.same(&x.best_wheel().filename.version),
                InstalledOrigin::Direct { .. } => false,
            }
        },
        Dist::Source(SourceDist::Registry(x)) => {
            match &i.origin {
                InstalledOrigin::Registry => i.version.same(&x.version),
                InstalledOrigin::Direct { .. } => false,
            }
        },
        Dist::Built(BuiltDist::DirectUrl(x)) => {
            match &i.origin {
                InstalledOrigin::Direct { url, editable } => !*editable && crate::strutil::str_eq(
                    url.distribution_key().as_str(),
                    x.url.distribution_key().as_str(),
                ),
                InstalledOrigin::Registry => false,
            }
        },
        Dist::Built(BuiltDist::Path(x)) => {
            match &i.origin {
                InstalledOrigin::Direct { url, editable } => !*editable && crate::strutil::str_eq(
                    url.distribution_key().as_str(),
                    x.url.distribution_key().as_str(),
                ),
                InstalledOrigin::Registry => false,
            }
        },
        Dist::Source(SourceDist::DirectUrl(x)) => {
            match &i.origin {
                InstalledOrigin::Direct { url, editable } => !*editable && crate::strutil::str_eq(
                    url.distribution_key().as_str(),
                    x.url.distribution_key().as_str(),
                ),
                InstalledOrigin::Registry => false,
            }
        },
        Dist::Source(SourceDist::Git(x)) => {
            match &i.origin {
                InstalledOrigin::Direct { url, editable } => !*editable && crate::strutil::str_eq(
                    url.distribution_key().as_str(),
                    x.url.distribution_key().as_str(),
                ),
                InstalledOrigin::Registry => false,
            }
        },
        Dist::Source(SourceDist::Path(x)) => {
            match &i.origin {
                InstalledOrigin::Direct { url, editable } => !*editable && crate::strutil::str_eq(
                    url.distribution_key().as_str(),
                    x.url.distribution_key().as_str(),
                ),
                InstalledOrigin::Registry => false,
            }
        },
        Dist::Source(SourceDist::Directory(x)) => {
            match &i.origin {
                InstalledOrigin::Direct { url, editable } => *editable == x.editable
                    && crate::strutil::str_eq(
                    url.distribution_key().as_str(),
                    x.url.distribution_key().as_str(),
                ),
                InstalledOrigin::Registry => false,
            }
        },
    }
}

/// Whether the cache entry can serve the desired distribution.
fn is_candidate(e: &CacheEntry, d: &Dist, require_hashes: bool, no_binary: &PackageFilter) -> (r:
    bool)
    requires
        d.wf(),
    ensures
        r == cache_candidate(e, d, require_hashes, filter_view(no_binary)),
{
    if require_hashes && !e.hash_ok {
        return false;
    }
    let editable = d.is_editable();
    if editable {
        return false;
    }
    if filter_bars(no_binary, d.name()) {
        return false;
    }
    if !e.name.same(d.name()) {
        return false;
    }
    let id = d.distribution_id();
    e.id.same(&id)
}

/// The best usable cache entry for the desired distribution: among the
/// candidates, the highest version, and the most recently touched of those.
fn find_candidate(
    cache: &Vec<CacheEntry>,
    d: &Dist,
    require_hashes: bool,
    no_binary: &PackageFilter,
) -> (r: Option<usize>)
    requires
        d.wf(),
    ensures
        match r {
            Some(b) => b < cache@.len() && cache_candidate(
                &cache@[b as int],
                d,
                require_hashes,
                filter_view(no_binary),
            ) && forall|e: int|
                0 <= e < cache@.len() && cache_candidate(
                    #[trigger] &cache@[e],
                    d,
                    require_hashes,
                    filter_view(no_binary),
                ) ==> !rel_lt(cache@[b as int].version@, cache@[e].version@) && (
                cache@[e].version@ == cache@[b as int].version@ ==> cache@[e].freshness
                    <= cache@[b as int].freshness),
            None => forall|e: int|
                0 <= e < cache@.len() ==> !cache_candidate(
                    #[trigger] &cache@[e],
                    d,
                    require_hashes,
                    filter_view(no_binary),
                ),
        },
{
    let mut best: Option<usize> = None;
    let mut i: usize = 0;
    while i < cache.len()
        invariant
            i <= cache@.len(),
            d.wf(),
            match best {
                Some(b) => b < i && cache_candidate(
                    &cache@[b as int],
                    d,
                    require_hashes,
                    filter_view(no_binary),
                ) && forall|e: int|
                    0 <= e < i && cache_candidate(
                        #[trigger] &cache@[e],
                        d,
                        require_hashes,
                        filter_view(no_binary),
                    ) ==> !rel_lt(cache@[b as int].version@, cache@[e].version@) && (
                    cache@[e].version@ == cache@[b as int].version@ ==> cache@[e].freshness
                        <= cache@[b as int].freshness),
                None => forall|e: int|
                    0 <= e < i ==> !cache_candidate(
                        #[trigger] &cache@[e],
                        d,
                        require_hashes,
                        filter_view(no_binary),
                    ),
            },
        decreases cache@.len() - i,
    {
        if is_candidate(&cache[i], d, require_hashes, no_binary) {
            match best {
                None => {
                    best = Some(i);
                    proof {
                        crate::version::lemma_rel_irrefl(cache@[i as int].version@);
                    }
                },
                Some(b) => {
                    let better = cache[b].version.below(&cache[i].version) || (cache[b]
                        .version.same(&cache[i].version) && cache[i].freshness
                        > cache[b].freshness);
                    if better {
                        best = Some(i);
                        proof {
                            let bv = cache@[b as int].version@;
                            let iv = cache@[i as int].version@;
                            crate::version::lemma_rel_irrefl(iv);
                            assert forall|e: int|
                                0 <= e < i + 1 && cache_candidate(
                                    #[trigger] &cache@[e],
                                    d,
                                    require_hashes,
                                    filter_view(no_binary),
                                ) implies !rel_lt(iv, cache@[e].version@) && (cache@[e].version@
                                == iv ==> cache@[e].freshness <= cache@[i as int].freshness) by {
                                let ev = cache@[e].version@;
                                if e < i {
                                    assert(!rel_lt(bv, ev));
                                    if rel_lt(bv, iv) {
                                        if rel_lt(iv, ev) {
                                            crate::version::lemma_rel_trans(bv, iv, ev);
                                        }
                                        if ev == iv {
                                            assert(rel_lt(bv, ev));
                                        }
                                    } else {
                                        assert(bv == iv);
                                    }
                                }
                            }
                        }
                    } else {
                        proof {
                            let bv = cache@[b as int].version@;
                            let iv = cache@[i as int].version@;
                            assert(!rel_lt(bv, iv));
                        }
                    }
                },
            }
        }
        i = i + 1;
    }
    best
}


/// Whether `x` is one of the first `hi` installs.
pub open spec fn in_site_prefix(x: InstalledDist, s0: Seq<InstalledDist>, hi: int) -> bool {
    exists|q: int| 0 <= q < hi && s0[q] == x
}

/// Whether `x` is one of the first `hi` desired distributions.
pub open spec fn in_desired_prefix(x: Dist, d0: Seq<Dist>, hi: int) -> bool {
    exists|q: int| 0 <= q < hi && d0[q] == x
}

/// Whether a cached element is justified: some desired distribution among
/// the first `hi` is in the cached class, and a usable cache entry carries
/// the element's fields.
pub open spec fn cached_elem_ok(
    x: CachedDist,
    d0: Seq<Dist>,
    hi: int,
    s0: Seq<InstalledDist>,
    reinstall: &Reinstall,
    require_hashes: bool,
    nbv: (int, Seq<Seq<char>>),
    cache0: Seq<CacheEntry>,
) -> bool {
    exists|q: int, e: int|
        0 <= q < hi && 0 <= e < cache0.len() && desired_class(
            &d0[q],
            s0,
            reinstall,
            require_hashes,
            nbv,
            cache0,
        ) == 1 && cache_candidate(&cache0[e], &d0[q], require_hashes, nbv) && x.name@ == dist_name(
            #[trigger] &d0[q],
        ) && x.version@ == (#[trigger] cache0[e]).version@ && x.path@ == cache0[e].path@
}

/// Whether the cached list holds an element of this name.
pub open spec fn cached_has_name(c: Seq<CachedDist>, n: Seq<char>) -> bool {
    exists|j: int| 0 <= j < c.len() && (#[trigger] c[j]).name@ == n
}

proof fn lemma_contains_push<T>(s: Seq<T>, v: T)
    ensures
        forall|x: T| s.contains(x) ==> #[trigger] s.push(v).contains(x),
        s.push(v).contains(v),
{
    assert forall|x: T| s.contains(x) implies #[trigger] s.push(v).contains(x) by {
        let q = choose|q: int| 0 <= q < s.len() && s[q] == x;
        assert(s.push(v)[q] == x);
    }
    assert(s.push(v)[s.len() as int] == v);
}

proof fn lemma_cached_has_name_push(c: Seq<CachedDist>, v: CachedDist)
    ensures
        forall|n: Seq<char>| cached_has_name(c, n) ==> #[trigger] cached_has_name(c.push(v), n),
        cached_has_name(c.push(v), v.name@),
{
    assert forall|n: Seq<char>| cached_has_name(c, n) implies #[trigger] cached_has_name(
        c.push(v),
        n,
    ) by {
        let j = choose|j: int| 0 <= j < c.len() && (#[trigger] c[j]).name@ == n;
        assert(c.push(v)[j].name@ == n);
    }
    assert(c.push(v)[c.len() as int].name@ == v.name@);
}

proof fn lemma_prefix_mono(s0: Seq<InstalledDist>, h1: int, h2: int)
    requires
        h1 <= h2,
    ensures
        forall|x: InstalledDist| in_site_prefix(x, s0, h1) ==> #[trigger] in_site_prefix(
            x,
            s0,
            h2,
        ),
{
    assert forall|x: InstalledDist| in_site_prefix(x, s0, h1) implies #[trigger] in_site_prefix(
        x,
        s0,
        h2,
    ) by {
        let q = choose|q: int| 0 <= q < h1 && s0[q] == x;
        assert(0 <= q < h2 && s0[q] == x);
    }
}

proof fn lemma_desired_prefix_mono(d0: Seq<Dist>, h1: int, h2: int)
    requires
        h1 <= h2,
    ensures
        forall|x: Dist| in_desired_prefix(x, d0, h1) ==> #[trigger] in_desired_prefix(x, d0, h2),
{
    assert forall|x: Dist| in_desired_prefix(x, d0, h1) implies #[trigger] in_desired_prefix(
        x,
        d0,
        h2,
    ) by {
        let q = choose|q: int| 0 <= q < h1 && d0[q] == x;
        assert(0 <= q < h2 && d0[q] == x);
    }
}

proof fn lemma_cached_elem_mono(
    d0: Seq<Dist>,
    h1: int,
    h2: int,
    s0: Seq<InstalledDist>,
    reinstall: &Reinstall,
    require_hashes: bool,
    nbv: (int, Seq<Seq<char>>),
    cache0: Seq<CacheEntry>,
)
    requires
        h1 <= h2,
    ensures
        forall|x: CachedDist|
            cached_elem_ok(x, d0, h1, s0, reinstall, require_hashes, nbv, cache0)
                ==> #[trigger] cached_elem_ok(
                x,
                d0,
                h2,
                s0,
                reinstall,
                require_hashes,
                nbv,
                cache0,
            ),
{
    assert forall|x: CachedDist|
        cached_elem_ok(x, d0, h1, s0, reinstall, require_hashes, nbv, cache0)
            implies #[trigger] cached_elem_ok(
            x,
            d0,
            h2,
            s0,
            reinstall,
            require_hashes,
            nbv,
            cache0,
        ) by {
        let (q, e) = choose|q: int, e: int|
            0 <= q < h1 && 0 <= e < cache0.len() && desired_class(
                &d0[q],
                s0,
                reinstall,
                require_hashes,
                nbv,
                cache0,
            ) == 1 && cache_candidate(&cache0[e], &d0[q], require_hashes, nbv) && x.name@
                == dist_name(#[trigger] &d0[q]) && x.version@ == (#[trigger] cache0[e]).version@
                && x.path@ == cache0[e].path@;
        assert(0 <= q < h2 && 0 <= e < cache0.len() && desired_class(
            &d0[q],
            s0,
            reinstall,
            require_hashes,
            nbv,
            cache0,
        ) == 1 && cache_candidate(&cache0[e], &d0[q], require_hashes, nbv) && x.name@ == dist_name(
            &d0[q],
        ) && x.version@ == cache0[e].version@ && x.path@ == cache0[e].path@);
    }
}

/// Record, for each desired distribution, whether some install satisfies it.
fn compute_satisfied(desired: &Vec<Dist>, site: &Vec<InstalledDist>) -> (r: Vec<bool>)
    requires
        forall|q: int| 0 <= q < desired@.len() ==> (#[trigger] &desired@[q]).wf(),
    ensures
        r@.len() == desired@.len(),
        forall|q: int| 0 <= q < desired@.len() ==> #[trigger] r@[q] == spec_satisfied(
            &desired@[q],
            site@,
        ),
{
    let ghost d0 = desired@;
    let ghost s0 = site@;
    let mut r: Vec<bool> = Vec::new();
    let mut k: usize = 0;
    while k < desired.len()
        invariant
            k <= desired@.len(),
            d0 == desired@,
            s0 == site@,
            forall|q: int| 0 <= q < d0.len() ==> (#[trigger] &d0[q]).wf(),
            r@.len() == k,
            forall|q: int| 0 <= q < k ==> #[trigger] r@[q] == spec_satisfied(&d0[q], s0),
        decreases desired@.len() - k,
    {
        let mut sj: usize = 0;
        let mut sat = false;
        while sj < site.len()
            invariant
                sj <= site@.len(),
                s0 == site@,
                d0 == desired@,
                k < d0.len(),
                forall|q: int| 0 <= q < d0.len() ==> (#[trigger] &d0[q]).wf(),
                sat == exists|i: int| 0 <= i < sj && satisfies(#[trigger] &s0[i], &d0[k as int]),
            decreases site@.len() - sj,
        {
            if !sat && satisfies_install(&site[sj], &desired[k]) {
                sat = true;
                proof {
                    assert(satisfies(&s0[sj as int], &d0[k as int]));
                }
            }
            proof {
                if !sat {
                    assert(forall|i: int| 0 <= i < sj + 1 ==> !satisfies(
                        #[trigger] &s0[i],
                        &d0[k as int],
                    ));
                }
            }
            sj = sj + 1;
        }
        r.push(sat);
        k = k + 1;
    }
    r
}

/// Partition the environment: installs a desired distribution replaces go
/// to the reinstalls, unrequested installs to the extraneous under strict
/// sync, and the rest stay untouched.
#[verifier::rlimit(100)]
fn partition_site(site: Vec<InstalledDist>, desired: &Vec<Dist>, reinstall: &Reinstall, strict:
    bool) -> (r: (Vec<InstalledDist>, Vec<InstalledDist>))
    requires
        forall|q: int| 0 <= q < desired@.len() ==> (#[trigger] &desired@[q]).wf(),
        forall|k1: int, k2: int| 0 <= k1 < k2 < desired@.len() ==> dist_name(
            #[trigger] &desired@[k1],
        ) != dist_name(#[trigger] &desired@[k2]),
        forall|k1: int, k2: int| 0 <= k1 < k2 < site@.len() ==> (#[trigger] site@[k1]).name@ != (
        #[trigger] site@[k2]).name@,
    ensures
        ({
            let d0 = desired@;
            let s0 = site@;
            let reinstalls = r.0;
            let extraneous = r.1;
            &&& forall|j1: int, j2: int| 0 <= j1 < j2 < reinstalls@.len() ==> (
            #[trigger] reinstalls@[j1]).name@ != (#[trigger] reinstalls@[j2]).name@
            &&& forall|j1: int, j2: int| 0 <= j1 < j2 < extraneous@.len() ==> (
            #[trigger] extraneous@[j1]).name@ != (#[trigger] extraneous@[j2]).name@
            &&& forall|j: int| 0 <= j < reinstalls@.len() ==> in_site_prefix(
                #[trigger] reinstalls@[j],
                s0,
                s0.len() as int,
            ) && reinstall_cond(&reinstalls@[j], d0, reinstall)
            &&& forall|q: int| 0 <= q < s0.len() && reinstall_cond(#[trigger] &s0[q], d0, reinstall)
                ==> reinstalls@.contains(s0[q])
            &&& forall|j: int| 0 <= j < extraneous@.len() ==> strict && in_site_prefix(
                #[trigger] extraneous@[j],
                s0,
                s0.len() as int,
            ) && !has_desired_name(extraneous@[j].name@, d0)
            &&& forall|q: int|
                0 <= q < s0.len() && strict && !has_desired_name((#[trigger] &s0[q]).name@, d0)
                    ==> extraneous@.contains(s0[q])
        }),
{
    let ghost d0 = desired@;
    let ghost s0 = site@;
    let mut reinstalls: Vec<InstalledDist> = Vec::new();
    let mut extraneous: Vec<InstalledDist> = Vec::new();
    let mut site = site;
    let ghost mut si: int = 0;
    while site.len() > 0
        invariant
            0 <= si <= s0.len(),
            site@ == s0.subrange(si, s0.len() as int),
            forall|q: int| 0 <= q < d0.len() ==> (#[trigger] &d0[q]).wf(),
            forall|k1: int, k2: int| 0 <= k1 < k2 < d0.len() ==> dist_name(#[trigger] &d0[k1])
                != dist_name(#[trigger] &d0[k2]),
            forall|k1: int, k2: int| 0 <= k1 < k2 < s0.len() ==> (#[trigger] s0[k1]).name@ != (
            #[trigger] s0[k2]).name@,
            desired@ == d0,
            forall|j1: int, j2: int| 0 <= j1 < j2 < reinstalls@.len() ==> (
            #[trigger] reinstalls@[j1]).name@ != (#[trigger] reinstalls@[j2]).name@,
            forall|j1: int, j2: int| 0 <= j1 < j2 < extraneous@.len() ==> (
            #[trigger] extraneous@[j1]).name@ != (#[trigger] extraneous@[j2]).name@,
            forall|j: int| 0 <= j < reinstalls@.len() ==> in_site_prefix(
                #[trigger] reinstalls@[j],
                s0,
                si,
            ) && reinstall_cond(&reinstalls@[j], d0, reinstall),
            forall|q: int| 0 <= q < si && reinstall_cond(#[trigger] &s0[q], d0, reinstall)
                ==> reinstalls@.contains(s0[q]),
            forall|j: int| 0 <= j < extraneous@.len() ==> strict && in_site_prefix(
                #[trigger] extraneous@[j],
                s0,
                si,
            ) && !has_desired_name(extraneous@[j].name@, d0),
            forall|q: int|
                0 <= q < si && strict && !has_desired_name((#[trigger] &s0[q]).name@, d0)
                    ==> extraneous@.contains(s0[q]),
        decreases site@.len(),
    {
        let entry = site.remove(0);
        proof {
            assert(entry == s0[si]);
            assert(site@ =~= s0.subrange(si + 1, s0.len() as int));
            lemma_prefix_mono(s0, si, si + 1);
        }
        let ghost reins0 = reinstalls@;
        let ghost extr0 = extraneous@;
        // Look for a desired distribution of the same name.
        let mut di: usize = 0;
        let mut found: Option<usize> = None;
        while di < desired.len()
            invariant
                di <= desired@.len(),
                desired@ == d0,
                forall|q: int| 0 <= q < d0.len() ==> (#[trigger] &d0[q]).wf(),
                match found {
                    Some(f) => f < d0.len() && dist_name(&d0[f as int]) == entry.name@,
                    None => forall|q: int| 0 <= q < di ==> dist_name(#[trigger] &d0[q])
                        != entry.name@,
                },
            decreases desired@.len() - di,
        {
            let already = match found {
                Some(_) => true,
                None => false,
            };
            if !already && desired[di].name().same(&entry.name) {
                found = Some(di);
            }
            di = di + 1;
        }
        match found {
            Some(f) => {
                let rr = reinstall_requested(reinstall, &entry.name);
                let sat = satisfies_install(&entry, &desired[f]);
                proof {
                    assert(dist_name(&d0[f as int]) == s0[si].name@);
                    assert(has_desired_name(s0[si].name@, d0));
                }
                if rr || !sat {
                    proof {
                        assert(reinstall_cond(&s0[si], d0, reinstall));
                        lemma_contains_push(reinstalls@, entry);
                    }
                    reinstalls.push(entry);
                    proof {
                        assert(reinstalls@.last() == s0[si]);
                        assert(in_site_prefix(reinstalls@.last(), s0, si + 1));
                        assert forall|j1: int, j2: int|
                            0 <= j1 < j2 < reinstalls@.len() implies (
                        #[trigger] reinstalls@[j1]).name@ != (
                        #[trigger] reinstalls@[j2]).name@ by {
                            if j2 == reinstalls@.len() - 1 {
                                let q = choose|q: int|
                                    0 <= q < si && s0[q] == reinstalls@[j1];
                                assert(s0[q].name@ != s0[si].name@);
                            }
                        }
                    }
                } else {
                    proof {
                        // No other desired distribution carries this name,
                        // so no reinstall is owed for this install.
                        if reinstall_cond(&s0[si], d0, reinstall) {
                            let q = choose|q: int|
                                0 <= q < d0.len() && dist_name(#[trigger] &d0[q]) == s0[si].name@
                                    && (reinstall_req(reinstall, s0[si].name@) || !satisfies(
                                    &s0[si],
                                    &d0[q],
                                ));
                            if q != f as int {
                                if q < f as int {
                                    assert(dist_name(&d0[q]) != dist_name(&d0[f as int]));
                                } else {
                                    assert(dist_name(&d0[f as int]) != dist_name(&d0[q]));
                                }
                            }
                            assert(false);
                        }
                    }
                }
            },
            None => {
                proof {
                    if has_desired_name(entry.name@, d0) {
                        let q = choose|q: int|
                            0 <= q < d0.len() && dist_name(#[trigger] &d0[q]) == entry.name@;
                        assert(false);
                    }
                    if reinstall_cond(&s0[si], d0, reinstall) {
                        let q = choose|q: int|
                            0 <= q < d0.len() && dist_name(#[trigger] &d0[q]) == s0[si].name@ && (
                            reinstall_req(reinstall, s0[si].name@) || !satisfies(
                                &s0[si],
                                &d0[q],
                            ));
                        assert(false);
                    }
                }
                if strict {
                    proof {
                        lemma_contains_push(extraneous@, entry);
                    }
                    extraneous.push(entry);
                    proof {
                        assert(extraneous@.last() == s0[si]);
                        assert(in_site_prefix(extraneous@.last(), s0, si + 1));
                        assert forall|j1: int, j2: int|
                            0 <= j1 < j2 < extraneous@.len() implies (
                        #[trigger] extraneous@[j1]).name@ != (
                        #[trigger] extraneous@[j2]).name@ by {
                            if j2 == extraneous@.len() - 1 {
                                let q = choose|q: int|
                                    0 <= q < si && s0[q] == extraneous@[j1];
                                assert(s0[q].name@ != s0[si].name@);
                            }
                        }
                    }
                }
            },
        }
        proof {
            si = si + 1;
        }
    }
    (reinstalls, extraneous)
}

/// Classify each desired distribution against the cache: skipped when
/// satisfied and not forced, cached when a usable artifact exists, remote
/// otherwise.
#[verifier::rlimit(100)]
fn classify_desired(
    desired: Vec<Dist>,
    satisfied: Vec<bool>,
    reinstall: &Reinstall,
    no_binary: &PackageFilter,
    require_hashes: bool,
    cache: &Vec<CacheEntry>,
    Ghost(s0): Ghost<Seq<InstalledDist>>,
) -> (r: (Vec<CachedDist>, Vec<Dist>))
    requires
        forall|q: int| 0 <= q < desired@.len() ==> (#[trigger] &desired@[q]).wf(),
        forall|k1: int, k2: int| 0 <= k1 < k2 < desired@.len() ==> dist_name(
            #[trigger] &desired@[k1],
        ) != dist_name(#[trigger] &desired@[k2]),
        satisfied@.len() == desired@.len(),
        forall|q: int| 0 <= q < desired@.len() ==> #[trigger] satisfied@[q] == spec_satisfied(
            &desired@[q],
            s0,
        ),
    ensures
        ({
            let d0 = desired@;
            let nbv = filter_view(no_binary);
            let cached = r.0;
            let remote = r.1;
            &&& forall|j1: int, j2: int| 0 <= j1 < j2 < remote@.len() ==> dist_name(
                #[trigger] &remote@[j1],
            ) != dist_name(#[trigger] &remote@[j2])
            &&& forall|j1: int, j2: int| 0 <= j1 < j2 < cached@.len() ==> (
            #[trigger] cached@[j1]).name@ != (#[trigger] cached@[j2]).name@
            &&& forall|j: int| 0 <= j < remote@.len() ==> in_desired_prefix(
                #[trigger] remote@[j],
                d0,
                d0.len() as int,
            ) && desired_class(&remote@[j], s0, reinstall, require_hashes, nbv, cache@) == 2
            &&& forall|j: int| 0 <= j < cached@.len() ==> cached_elem_ok(
                #[trigger] cached@[j],
                d0,
                d0.len() as int,
                s0,
                reinstall,
                require_hashes,
                nbv,
                cache@,
            )
            &&& forall|q: int| 0 <= q < d0.len() ==> {
                let c = desired_class(#[trigger] &d0[q], s0, reinstall, require_hashes, nbv, cache@);
                &&& (c == 1 ==> cached_has_name(cached@, dist_name(&d0[q])))
                &&& (c == 2 ==> remote@.contains(d0[q]))
            }
        }),
{
    let ghost d0 = desired@;
    let ghost nbv = filter_view(no_binary);
    let ghost sat0 = satisfied@;
    let mut cached: Vec<CachedDist> = Vec::new();
    let mut remote: Vec<Dist> = Vec::new();
    let mut desired = desired;
    let mut satisfied = satisfied;
    let ghost mut ki: int = 0;
    while desired.len() > 0
        invariant
            0 <= ki <= d0.len(),
            desired@ == d0.subrange(ki, d0.len() as int),
            satisfied@ == sat0.subrange(ki, d0.len() as int),
            sat0.len() == d0.len(),
            nbv == filter_view(no_binary),
            forall|q: int| 0 <= q < d0.len() ==> (#[trigger] &d0[q]).wf(),
            forall|q: int| 0 <= q < d0.len() ==> #[trigger] sat0[q] == spec_satisfied(
                &d0[q],
                s0,
            ),
            forall|k1: int, k2: int| 0 <= k1 < k2 < d0.len() ==> dist_name(#[trigger] &d0[k1])
                != dist_name(#[trigger] &d0[k2]),
            forall|j1: int, j2: int| 0 <= j1 < j2 < remote@.len() ==> dist_name(
                #[trigger] &remote@[j1],
            ) != dist_name(#[trigger] &remote@[j2]),
            forall|j1: int, j2: int| 0 <= j1 < j2 < cached@.len() ==> (
            #[trigger] cached@[j1]).name@ != (#[trigger] cached@[j2]).name@,
            forall|j: int| 0 <= j < remote@.len() ==> in_desired_prefix(
                #[trigger] remote@[j],
                d0,
                ki,
            ) && desired_class(&remote@[j], s0, reinstall, require_hashes, nbv, cache@) == 2,
            forall|j: int| 0 <= j < cached@.len() ==> cached_elem_ok(
                #[trigger] cached@[j],
                d0,
                ki,
                s0,
                reinstall,
                require_hashes,
                nbv,
                cache@,
            ),
            forall|q: int| 0 <= q < ki ==> {
                let c = desired_class(#[trigger] &d0[q], s0, reinstall, require_hashes, nbv, cache@);
                &&& (c == 1 ==> cached_has_name(cached@, dist_name(&d0[q])))
                &&& (c == 2 ==> remote@.contains(d0[q]))
            },
        decreases desired@.len(),
    {
        let ghost cached0 = cached@;
        let ghost remote0 = remote@;
        let sat = satisfied.remove(0);
        let d = desired.remove(0);
        proof {
            assert(sat == sat0[ki]);
            assert(satisfied@ =~= sat0.subrange(ki + 1, d0.len() as int));
            assert(d == d0[ki]);
            assert(desired@ =~= d0.subrange(ki + 1, d0.len() as int));
            lemma_desired_prefix_mono(d0, ki, ki + 1);
            lemma_cached_elem_mono(d0, ki, ki + 1, s0, reinstall, require_hashes, nbv, cache@);
        }
        let rr = reinstall_requested(reinstall, d.name());
        if sat && !rr {
            proof {
                assert(desired_class(&d0[ki], s0, reinstall, require_hashes, nbv, cache@) == 0);
            }
            // Already satisfied: skip.
        } else {
            match find_candidate(cache, &d, require_hashes, no_binary) {
                Some(e) => {
                    proof {
                        assert(cache_candidate(&cache@[e as int], &d0[ki], require_hashes, nbv));
                        assert(desired_class(&d0[ki], s0, reinstall, require_hashes, nbv, cache@)
                            == 1);
                    }
                    let elem = CachedDist {
                        name: cache[e].name.dup(),
                        version: cache[e].version.dup(),
                        path: cache[e].path.clone(),
                    };
                    proof {
                        assert(elem.name@ == dist_name(&d0[ki]));
                        assert(cached_elem_ok(
                            elem,
                            d0,
                            ki + 1,
                            s0,
                            reinstall,
                            require_hashes,
                            nbv,
                            cache@,
                        ));
                        lemma_cached_has_name_push(cached@, elem);
                    }
                    let ghost cprev = cached@;
                    cached.push(elem);
                    proof {
                        assert(cached@.last().name@ == dist_name(&d0[ki]));
                        assert forall|j1: int, j2: int|
                            0 <= j1 < j2 < cached@.len() implies (#[trigger] cached@[j1]).name@
                            != (#[trigger] cached@[j2]).name@ by {
                            if j2 == cached@.len() - 1 {
                                assert(cached_elem_ok(
                                    cached@[j1],
                                    d0,
                                    ki,
                                    s0,
                                    reinstall,
                                    require_hashes,
                                    nbv,
                                    cache@,
                                ));
                                let (q, e2) = choose|q: int, e2: int|
                                    0 <= q < ki && 0 <= e2 < cache@.len() && desired_class(
                                        &d0[q],
                                        s0,
                                        reinstall,
                                        require_hashes,
                                        nbv,
                                        cache@,
                                    ) == 1 && cache_candidate(
                                        &cache@[e2],
                                        &d0[q],
                                        require_hashes,
                                        nbv,
                                    ) && cached@[j1].name@ == dist_name(#[trigger] &d0[q])
                                        && cached@[j1].version@ == (
                                    #[trigger] cache@[e2]).version@ && cached@[j1].path@
                                        == cache@[e2].path@;
                                assert(dist_name(&d0[q]) != dist_name(&d0[ki]));
                            }
                        }
                    }
                },
                None => {
                    proof {
                        assert(desired_class(&d0[ki], s0, reinstall, require_hashes, nbv, cache@)
                            == 2);
                        assert(in_desired_prefix(d0[ki], d0, ki + 1));
                        lemma_contains_push(remote@, d);
                    }
                    remote.push(d);
                    proof {
                        assert(remote@.last() == d0[ki]);
                        assert forall|j1: int, j2: int|
                            0 <= j1 < j2 < remote@.len() implies dist_name(
                            #[trigger] &remote@[j1],
                        ) != dist_name(#[trigger] &remote@[j2]) by {
                            if j2 == remote@.len() - 1 {
                                let q = choose|q: int| 0 <= q < ki && d0[q] == remote@[j1];
                                assert(dist_name(&d0[q]) != dist_name(&d0[ki]));
                            }
                        }
                    }
                },
            }
        }
        proof {
            ki = ki + 1;
        }
    }
    (cached, remote)
}

/// What a correct plan states: the characterization of each class, their
/// completeness, and the disjointness of the classes over names.
pub open spec fn plan_ok(
    d0: Seq<Dist>,
    s0: Seq<InstalledDist>,
    reinstall: &Reinstall,
    nbv: (int, Seq<Seq<char>>),
    require_hashes: bool,
    cache0: Seq<CacheEntry>,
    strict: bool,
    p: &Plan,
) -> bool {
    &&& plan_classes_ok(d0, s0, reinstall, nbv, require_hashes, cache0, strict, p)
    &&& plan_disjoint_ok(p)
    &&& plan_unique_ok(p)
}

/// No class lists one package name twice: together with completeness, a
/// desired distribution yields exactly one fetch or link.
pub open spec fn plan_unique_ok(p: &Plan) -> bool {
    &&& forall|j1: int, j2: int| 0 <= j1 < j2 < p.remote@.len() ==> dist_name(
        #[trigger] &p.remote@[j1],
    ) != dist_name(#[trigger] &p.remote@[j2])
    &&& forall|j1: int, j2: int| 0 <= j1 < j2 < p.cached@.len() ==> (
    #[trigger] p.cached@[j1]).name@ != (#[trigger] p.cached@[j2]).name@
    &&& forall|j1: int, j2: int| 0 <= j1 < j2 < p.reinstalls@.len() ==> (
    #[trigger] p.reinstalls@[j1]).name@ != (#[trigger] p.reinstalls@[j2]).name@
    &&& forall|j1: int, j2: int| 0 <= j1 < j2 < p.extraneous@.len() ==> (
    #[trigger] p.extraneous@[j1]).name@ != (#[trigger] p.extraneous@[j2]).name@
}

/// The characterization and completeness of the four classes.
pub open spec fn plan_classes_ok(
    d0: Seq<Dist>,
    s0: Seq<InstalledDist>,
    reinstall: &Reinstall,
    nbv: (int, Seq<Seq<char>>),
    require_hashes: bool,
    cache0: Seq<CacheEntry>,
    strict: bool,
    p: &Plan,
) -> bool {
    &&& forall|j: int| 0 <= j < p.remote@.len() ==> in_desired_prefix(
        #[trigger] p.remote@[j],
        d0,
        d0.len() as int,
    ) && desired_class(&p.remote@[j], s0, reinstall, require_hashes, nbv, cache0) == 2
    &&& forall|j: int| 0 <= j < p.cached@.len() ==> cached_elem_ok(
        #[trigger] p.cached@[j],
        d0,
        d0.len() as int,
        s0,
        reinstall,
        require_hashes,
        nbv,
        cache0,
    )
    &&& forall|q: int| 0 <= q < d0.len() ==> {
        let c = desired_class(#[trigger] &d0[q], s0, reinstall, require_hashes, nbv, cache0);
        &&& (c == 1 ==> cached_has_name(p.cached@, dist_name(&d0[q])))
        &&& (c == 2 ==> p.remote@.contains(d0[q]))
    }
    &&& forall|j: int| 0 <= j < p.reinstalls@.len() ==> in_site_prefix(
        #[trigger] p.reinstalls@[j],
        s0,
        s0.len() as int,
    ) && reinstall_cond(&p.reinstalls@[j], d0, reinstall)
    &&& forall|q: int| 0 <= q < s0.len() && reinstall_cond(#[trigger] &s0[q], d0, reinstall)
        ==> p.reinstalls@.contains(s0[q])
    &&& forall|j: int| 0 <= j < p.extraneous@.len() ==> strict && in_site_prefix(
        #[trigger] p.extraneous@[j],
        s0,
        s0.len() as int,
    ) && !has_desired_name(p.extraneous@[j].name@, d0)
    &&& forall|q: int|
        0 <= q < s0.len() && strict && !has_desired_name((#[trigger] &s0[q]).name@, d0)
            ==> p.extraneous@.contains(s0[q])
}

/// The classes never share a package name, with one exception: a package
/// marked for reinstall also stands among the cached or remote ones that
/// will replace it.
pub open spec fn plan_disjoint_ok(p: &Plan) -> bool {
    &&& forall|j1: int, j2: int|
        0 <= j1 < p.cached@.len() && 0 <= j2 < p.remote@.len() ==> (
    #[trigger] p.cached@[j1]).name@ != dist_name(#[trigger] &p.remote@[j2])
    &&& forall|j1: int, j2: int|
        0 <= j1 < p.cached@.len() && 0 <= j2 < p.extraneous@.len() ==> (
    #[trigger] p.cached@[j1]).name@ != (#[trigger] p.extraneous@[j2]).name@
    &&& forall|j1: int, j2: int|
        0 <= j1 < p.remote@.len() && 0 <= j2 < p.extraneous@.len() ==> dist_name(
            #[trigger] &p.remote@[j1],
        ) != (#[trigger] p.extraneous@[j2]).name@
    &&& forall|j1: int, j2: int|
        0 <= j1 < p.reinstalls@.len() && 0 <= j2 < p.extraneous@.len() ==> (
    #[trigger] p.reinstalls@[j1]).name@ != (#[trigger] p.extraneous@[j2]).name@
}

/// The plan's classes are disjoint over names: each class names either a
/// desired distribution or an unrequested install, and the same name
/// cannot do both, nor can one desired name fall in two classes.
proof fn lemma_plan_disjoint(
    d0: Seq<Dist>,
    s0: Seq<InstalledDist>,
    reinstall: &Reinstall,
    nbv: (int, Seq<Seq<char>>),
    require_hashes: bool,
    cache0: Seq<CacheEntry>,
    strict: bool,
    p: &Plan,
)
    requires
        forall|k1: int, k2: int| 0 <= k1 < k2 < d0.len() ==> dist_name(#[trigger] &d0[k1])
            != dist_name(#[trigger] &d0[k2]),
        plan_classes_ok(d0, s0, reinstall, nbv, require_hashes, cache0, strict, p),
    ensures
        plan_disjoint_ok(p),
{
    assert forall|j1: int, j2: int|
        0 <= j1 < p.cached@.len() && 0 <= j2 < p.remote@.len() implies (
    #[trigger] p.cached@[j1]).name@ != dist_name(#[trigger] &p.remote@[j2]) by {
        let (k1, e1) = choose|q: int, e: int|
            0 <= q < d0.len() && 0 <= e < cache0.len() && desired_class(
                &d0[q],
                s0,
                reinstall,
                require_hashes,
                nbv,
                cache0,
            ) == 1 && cache_candidate(&cache0[e], &d0[q], require_hashes, nbv) && p.cached@[
                j1
            ].name@ == dist_name(#[trigger] &d0[q]) && p.cached@[j1].version@ == (
            #[trigger] cache0[e]).version@ && p.cached@[j1].path@ == cache0[e].path@;
        let k2 = choose|q: int| 0 <= q < d0.len() && d0[q] == p.remote@[j2];
        if p.cached@[j1].name@ == dist_name(&p.remote@[j2]) {
            assert(desired_class(&d0[k2], s0, reinstall, require_hashes, nbv, cache0) == 2);
            if k1 != k2 {
                if k1 < k2 {
                    assert(dist_name(&d0[k1]) != dist_name(&d0[k2]));
                } else {
                    assert(dist_name(&d0[k2]) != dist_name(&d0[k1]));
                }
            }
            assert(false);
        }
    }
    assert forall|j1: int, j2: int|
        0 <= j1 < p.cached@.len() && 0 <= j2 < p.extraneous@.len() implies (
    #[trigger] p.cached@[j1]).name@ != (#[trigger] p.extraneous@[j2]).name@ by {
        let (k1, e1) = choose|q: int, e: int|
            0 <= q < d0.len() && 0 <= e < cache0.len() && desired_class(
                &d0[q],
                s0,
                reinstall,
                require_hashes,
                nbv,
                cache0,
            ) == 1 && cache_candidate(&cache0[e], &d0[q], require_hashes, nbv) && p.cached@[
                j1
            ].name@ == dist_name(#[trigger] &d0[q]) && p.cached@[j1].version@ == (
            #[trigger] cache0[e]).version@ && p.cached@[j1].path@ == cache0[e].path@;
        if p.cached@[j1].name@ == p.extraneous@[j2].name@ {
            assert(dist_name(&d0[k1]) == p.extraneous@[j2].name@);
            assert(has_desired_name(p.extraneous@[j2].name@, d0));
            assert(false);
        }
    }
    assert forall|j1: int, j2: int|
        0 <= j1 < p.remote@.len() && 0 <= j2 < p.extraneous@.len() implies dist_name(
        #[trigger] &p.remote@[j1],
    ) != (#[trigger] p.extraneous@[j2]).name@ by {
        let k1 = choose|q: int| 0 <= q < d0.len() && d0[q] == p.remote@[j1];
        if dist_name(&p.remote@[j1]) == p.extraneous@[j2].name@ {
            assert(dist_name(&d0[k1]) == p.extraneous@[j2].name@);
            assert(has_desired_name(p.extraneous@[j2].name@, d0));
            assert(false);
        }
    }
    assert forall|j1: int, j2: int|
        0 <= j1 < p.reinstalls@.len() && 0 <= j2 < p.extraneous@.len() implies (
    #[trigger] p.reinstalls@[j1]).name@ != (#[trigger] p.extraneous@[j2]).name@ by {
        if p.reinstalls@[j1].name@ == p.extraneous@[j2].name@ {
            let w = choose|q: int|
                0 <= q < d0.len() && dist_name(#[trigger] &d0[q]) == p.reinstalls@[j1].name@ && (
                reinstall_req(reinstall, p.reinstalls@[j1].name@) || !satisfies(
                    &p.reinstalls@[j1],
                    &d0[q],
                ));
            assert(dist_name(&d0[w]) == p.extraneous@[j2].name@);
            assert(has_desired_name(p.extraneous@[j2].name@, d0));
            assert(false);
        }
    }
}

/// Build the installation plan: diff the desired set against the live
/// environment and the artifact cache.
///
/// Every desired distribution lands in exactly one class — skipped when an
/// install satisfies it and no reinstall is forced, cached when a usable
/// artifact is in the cache, remote otherwise — and, under strict sync,
/// every installed distribution nobody asked for is extraneous. The
/// classes are disjoint over package names, except that a package marked
/// for reinstall also appears among the cached or remote ones that will
/// replace it.
pub fn plan(
    desired: Vec<Dist>,
    site: Vec<InstalledDist>,
    reinstall: &Reinstall,
    no_binary: &PackageFilter,
    require_hashes: bool,
    cache: &Vec<CacheEntry>,
    strict: bool,
) -> (p: Plan)
    requires
        forall|k: int| 0 <= k < desired@.len() ==> (#[trigger] &desired@[k]).wf(),
        forall|k1: int, k2: int| 0 <= k1 < k2 < desired@.len() ==> dist_name(
            #[trigger] &desired@[k1],
        ) != dist_name(#[trigger] &desired@[k2]),
        forall|k1: int, k2: int| 0 <= k1 < k2 < site@.len() ==> (#[trigger] site@[k1]).name@ != (
        #[trigger] site@[k2]).name@,
    ensures
        plan_ok(
            desired@,
            site@,
            reinstall,
            filter_view(no_binary),
            require_hashes,
            cache@,
            strict,
            &p,
        ),
{
    let ghost d0 = desired@;
    let ghost s0 = site@;
    let satisfied = compute_satisfied(&desired, &site);
    let (reinstalls, extraneous) = partition_site(site, &desired, reinstall, strict);
    let (cached, remote) = classify_desired(
        desired,
        satisfied,
        reinstall,
        no_binary,
        require_hashes,
        cache,
        Ghost(s0),
    );
    let p = Plan { cached, remote, reinstalls, extraneous };
    proof {
        lemma_plan_disjoint(
            d0,
            s0,
            reinstall,
            filter_view(no_binary),
            require_hashes,
            cache@,
            strict,
            &p,
        );
    }
    p
}

} // verus!
