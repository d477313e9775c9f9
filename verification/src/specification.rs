//! Requirement aggregation.
//!
//! Heterogeneous requirement sources — bare names, editable paths,
//! requirements listings, project manifests, source trees — are merged
//! into one normalized specification. Reading and parsing the sources
//! happens outside this crate; each arrives here as parsed values.

use vstd::prelude::*;
use crate::discovery::{
    dep_view, dep_views, manifest_view, member_entry_views, unique_names, DiscoverError,
    ManifestView, ProjectWorkspace, WorkspaceMember,
};
use crate::name::PackageName;
use crate::requirement::{
    dup_origin, dup_texts, editable_view, entry_view, req_view, text_views, url_view, AnyReqView,
    EditableRequirement, EditableView, Requirement, RequirementEntry, ReqView,
    UnresolvedRequirement, UrlView,
};
use crate::url::{canonical_text, Url};

verus! {

/// A flat-index source: a page or a directory of candidate artifacts.
pub enum FlatIndexLocation {
    Url(Url),
    Path(String),
}

/// The value a flat-index source denotes.
pub open spec fn flat_index_view(f: &FlatIndexLocation) -> (bool, UrlView, Seq<char>) {
    match f {
        FlatIndexLocation::Url(u) => (true, url_view(u), Seq::empty()),
        FlatIndexLocation::Path(p) => (false, arbitrary(), p@),
    }
}

/// A per-installability filter: no package, all of them, or a named set.
pub enum PackageFilter {
    NoPackage,
    AllPackages,
    Packages(Vec<PackageName>),
}

/// The value a filter denotes: a tag and the named set.
pub open spec fn filter_view(f: &PackageFilter) -> (int, Seq<Seq<char>>) {
    match f {
        PackageFilter::NoPackage => (0int, Seq::empty()),
        PackageFilter::AllPackages => (1int, Seq::empty()),
        PackageFilter::Packages(v) => (2int, v@.map_values(|n: PackageName| n@)),
    }
}

/// Filters combine by set union, with "all" absorbing every named set.
pub open spec fn filter_combine(a: (int, Seq<Seq<char>>), b: (int, Seq<Seq<char>>)) -> (
    int,
    Seq<Seq<char>>,
) {
    if a.0 == 1 || b.0 == 1 {
        (1int, Seq::empty())
    } else if a.0 == 0 {
        b
    } else if b.0 == 0 {
        a
    } else {
        (2int, dedup_concat(a.1, b.1))
    }
}

impl PackageFilter {
    /// Combine two filters: the union, with "all" absorbing specifics.
    pub fn combine(self, other: PackageFilter) -> (r: PackageFilter)
        ensures
            filter_view(&r) == filter_combine(filter_view(&self), filter_view(&other)),
    {
        match (self, other) {
            (PackageFilter::AllPackages, _) => PackageFilter::AllPackages,
            (_, PackageFilter::AllPackages) => PackageFilter::AllPackages,
            (PackageFilter::NoPackage, b) => b,
            (a, PackageFilter::NoPackage) => a,
            (PackageFilter::Packages(mut a), PackageFilter::Packages(b)) => {
                let ghost av = a@.map_values(|n: PackageName| n@);
                let ghost bv = b@.map_values(|n: PackageName| n@);
                let mut i: usize = 0;
                proof {
                    assert(bv.subrange(0, 0) =~= Seq::<Seq<char>>::empty());
                }
                while i < b.len()
                    invariant
                        i <= b@.len(),
                        bv == b@.map_values(|n: PackageName| n@),
                        a@.map_values(|n: PackageName| n@) == dedup_concat(
                            av,
                            bv.subrange(0, i as int),
                        ),
                    decreases b@.len() - i,
                {
                    proof {
                        assert(bv.subrange(0, i + 1).drop_last() =~= bv.subrange(0, i as int));
                        assert(bv.subrange(0, i + 1).last() == b@[i as int]@);
                    }
                    if !name_listed(&a, &b[i]) {
                        a.push(b[i].dup());
                        proof {
                            assert(a@.map_values(|n: PackageName| n@) =~= dedup_concat(
                                av,
                                bv.subrange(0, i as int),
                            ).push(b@[i as int]@));
                        }
                    }
                    i = i + 1;
                }
                proof {
                    assert(bv.subrange(0, b@.len() as int) =~= bv);
                }
                PackageFilter::Packages(a)
            },
        }
    }
}

/// A parsed requirements listing, as its file declares it.
pub struct RequirementsTxtContent {
    pub requirements: Vec<RequirementEntry>,
    pub constraints: Vec<Requirement>,
    pub editables: Vec<EditableRequirement>,
    pub index_url: Option<Url>,
    pub extra_index_urls: Vec<Url>,
    pub no_index: bool,
    pub find_links: Vec<FlatIndexLocation>,
    pub no_binary: PackageFilter,
    pub no_build: PackageFilter,
}

/// What workspace discovery made of a project manifest.
pub enum PyprojectState {
    /// The manifest has a project section and a discovered workspace.
    Discovered(ProjectWorkspace),
    /// The manifest has no static project section: a dynamic source tree.
    Dynamic,
    /// Discovery failed.
    Failed(DiscoverError),
}

/// A project manifest named as a requirement source.
pub struct PyprojectContent {
    pub path: String,
    pub state: PyprojectState,
}

/// One requirement source, already read and parsed.
pub enum RequirementsSource {
    /// A bare requirement given on the command line.
    Package(RequirementEntry),
    /// An editable path given on the command line.
    Editable(EditableRequirement),
    /// A requirements listing file.
    RequirementsTxt(RequirementsTxtContent),
    /// A project manifest.
    PyprojectToml(PyprojectContent),
    /// A legacy build script: a source tree.
    SetupPy(String),
    /// A legacy build configuration: a source tree.
    SetupCfg(String),
    /// A source tree named directly.
    SourceTree(String),
}

/// A request for a source that must first be read from disk.
pub enum RequirementsRequest {
    /// Read the manifest at this path.
    PyprojectToml(String),
    /// Install this directory editable.
    Editable(String),
}

impl PyprojectContent {
    /// Classify what discovery made of a project manifest: a manifest
    /// whose nearest project root lacks a project section is a dynamic
    /// source tree; any other discovery fault stays a fault.
    pub fn of_discovery(path: String, discovered: Result<ProjectWorkspace, DiscoverError>) -> (r:
        PyprojectContent)
        ensures
            r.path@ == path@,
            match discovered {
                Ok(pw) => r.state matches PyprojectState::Discovered(pw2) && pw2 == pw,
                Err(e) => match e {
                    DiscoverError::MissingProject(_) => r.state is Dynamic,
                    _ => r.state matches PyprojectState::Failed(e2) && e2 == e,
                },
            },
    {
        match discovered {
            Ok(pw) => PyprojectContent { path, state: PyprojectState::Discovered(pw) },
            Err(e) => match e {
                DiscoverError::MissingProject(_) => PyprojectContent {
                    path,
                    state: PyprojectState::Dynamic,
                },
                other => PyprojectContent { path, state: PyprojectState::Failed(other) },
            },
        }
    }
}

/// A fault met while aggregating sources.
#[derive(Debug)]
pub enum AggregateError {
    /// Workspace discovery failed for a project manifest.
    Discovery(DiscoverError),
    /// A constraint source holds an unnamed requirement.
    UnnamedConstraint { url: String },
    /// Two sources declare different index locations.
    MultipleIndexUrls { existing: String, given: String },
}

/// The normalized output of aggregation.
pub struct RequirementsSpecification {
    /// The name of the project specifying requirements.
    pub project: Option<PackageName>,
    /// The requirements for the project.
    pub requirements: Vec<RequirementEntry>,
    /// The constraints for the project: upper bounds that never introduce
    /// packages.
    pub constraints: Vec<Requirement>,
    /// The overrides for the project: replacements that trump requirements.
    pub overrides: Vec<RequirementEntry>,
    /// Packages to install as editable installs.
    pub editables: Vec<EditableRequirement>,
    /// The source trees from which to extract requirements later.
    pub source_trees: Vec<String>,
    /// The extras used to collect requirements.
    pub extras: Vec<String>,
    /// The index location to fetch packages from.
    pub index_url: Option<Url>,
    /// Extra index locations.
    pub extra_index_urls: Vec<Url>,
    /// Whether to disallow index usage.
    pub no_index: bool,
    /// Flat-index sources.
    pub find_links: Vec<FlatIndexLocation>,
    /// Packages that must not be installed from prebuilt archives.
    pub no_binary: PackageFilter,
    /// Packages that must not be built from source.
    pub no_build: PackageFilter,
}

/// Append the texts of `src` that `acc` does not already hold.
pub open spec fn dedup_concat<T>(a: Seq<T>, b: Seq<T>) -> Seq<T>
    decreases b.len(),
{
    if b.len() == 0 {
        a
    } else {
        let u = dedup_concat(a, b.drop_last());
        if u.contains(b.last()) {
            u
        } else {
            u.push(b.last())
        }
    }
}

/// Folding a list into itself adds nothing: every element is present.
pub proof fn lemma_dedup_concat_absorbed<T>(a: Seq<T>, b: Seq<T>)
    requires
        forall|i: int| 0 <= i < b.len() ==> a.contains(#[trigger] b[i]),
    ensures
        dedup_concat(a, b) == a,
    decreases b.len(),
{
    if b.len() > 0 {
        lemma_dedup_concat_absorbed(a, b.drop_last());
        assert(a.contains(b.last()));
    }
}

impl RequirementsSpecification {
    /// An empty specification.
    pub fn new_empty() -> (r: RequirementsSpecification)
        ensures
            r.project is None,
            r.requirements@ =~= Seq::<RequirementEntry>::empty(),
            r.constraints@ =~= Seq::<Requirement>::empty(),
            r.overrides@ =~= Seq::<RequirementEntry>::empty(),
            r.editables@ =~= Seq::<EditableRequirement>::empty(),
            r.source_trees@ =~= Seq::<String>::empty(),
            r.extras@ =~= Seq::<String>::empty(),
            r.index_url is None,
            r.extra_index_urls@ =~= Seq::<Url>::empty(),
            !r.no_index,
            r.find_links@ =~= Seq::<FlatIndexLocation>::empty(),
            filter_view(&r.no_binary) == (0int, Seq::<Seq<char>>::empty()),
            filter_view(&r.no_build) == (0int, Seq::<Seq<char>>::empty()),
    {
        RequirementsSpecification {
            project: None,
            requirements: Vec::new(),
            constraints: Vec::new(),
            overrides: Vec::new(),
            editables: Vec::new(),
            source_trees: Vec::new(),
            extras: Vec::new(),
            index_url: None,
            extra_index_urls: Vec::new(),
            no_index: false,
            find_links: Vec::new(),
            no_binary: PackageFilter::NoPackage,
            no_build: PackageFilter::NoPackage,
        }
    }
}

/// Whether a specification holds no requirement inputs and no index
/// configuration beyond the defaults, apart from the listed fields.
pub open spec fn spec_no_inputs(s: &RequirementsSpecification) -> bool {
    &&& s.requirements@.len() == 0
    &&& s.constraints@.len() == 0
    &&& s.overrides@.len() == 0
    &&& s.editables@.len() == 0
    &&& s.source_trees@.len() == 0
    &&& s.extras@.len() == 0
}

/// Whether a specification carries no index configuration.
pub open spec fn spec_no_index_config(s: &RequirementsSpecification) -> bool {
    &&& s.index_url is None
    &&& s.extra_index_urls@.len() == 0
    &&& !s.no_index
    &&& s.find_links@.len() == 0
    &&& filter_view(&s.no_binary) == (0int, Seq::<Seq<char>>::empty())
    &&& filter_view(&s.no_build) == (0int, Seq::<Seq<char>>::empty())
}

impl ProjectWorkspace {
    /// The requirement sources a discovered project implies: its manifest,
    /// and the project itself as an editable install.
    pub fn requirements(&self) -> (r: Vec<RequirementsRequest>)
        ensures
            r@.len() == 2,
            r@[0] matches RequirementsRequest::PyprojectToml(p) && p@ == self.spec_project_root()
                + "/pyproject.toml"@,
            r@[1] matches RequirementsRequest::Editable(p) && p@ == self.spec_project_root(),
    {
        let mut manifest_path = self.project_root().clone();
        manifest_path.append("/pyproject.toml");
        let mut r: Vec<RequirementsRequest> = Vec::new();
        r.push(RequirementsRequest::PyprojectToml(manifest_path));
        r.push(RequirementsRequest::Editable(self.project_root().clone()));
        r
    }
}

/// Whether a member's manifest declares this plain dependency.
pub open spec fn member_has_plain_dep(m: ManifestView, rv: ReqView) -> bool {
    m.project matches Some(pj) && exists|d: int|
        0 <= d < pj.1.len() && (#[trigger] pj.1[d]).1 is None && pj.1[d].0 == rv
}

/// Whether a member's manifest declares this editable dependency.
pub open spec fn member_has_editable_dep(m: ManifestView, ev: EditableView) -> bool {
    m.project matches Some(pj) && exists|d: int|
        0 <= d < pj.1.len() && ((#[trigger] pj.1[d]).1 matches Some(lp) && ev == (EditableView {
            url: lp.0,
            path: lp.1,
            extras: pj.1[d].0.extras,
            origin: pj.1[d].0.origin,
        }))
}

/// Whether some workspace member declares this plain dependency.
pub open spec fn justified_requirement(
    entries: Seq<(Seq<char>, Seq<char>, ManifestView)>,
    rv: ReqView,
) -> bool {
    exists|i: int| 0 <= i < entries.len() && member_has_plain_dep((#[trigger] entries[i]).2, rv)
}

/// Whether some workspace member declares this editable dependency.
pub open spec fn justified_editable(
    entries: Seq<(Seq<char>, Seq<char>, ManifestView)>,
    ev: EditableView,
) -> bool {
    exists|i: int| 0 <= i < entries.len() && member_has_editable_dep((#[trigger] entries[i]).2, ev)
}

/// Whether a declared dependency made it into the gathered output: an
/// editable one as an editable declaration, a plain one as a requirement.
pub open spec fn dep_covered(
    d: (ReqView, Option<(UrlView, Seq<char>)>),
    reqs: Seq<RequirementEntry>,
    eds: Seq<EditableRequirement>,
) -> bool {
    match d.1 {
        Some(lp) => exists|k: int|
            0 <= k < eds.len() && editable_view(#[trigger] &eds[k]) == (EditableView {
                url: lp.0,
                path: lp.1,
                extras: d.0.extras,
                origin: d.0.origin,
            }),
        None => exists|k: int|
            0 <= k < reqs.len() && entry_view(#[trigger] &reqs[k]) == (
                AnyReqView::Named(d.0),
                Seq::<Seq<char>>::empty(),
            ),
    }
}

/// Whether a queue of names never repeats and names only the project or a
/// workspace member.
pub open spec fn queue_ok(
    qviews: Seq<Seq<char>>,
    entries: Seq<(Seq<char>, Seq<char>, ManifestView)>,
    pn: Seq<char>,
) -> bool {
    &&& qviews.no_duplicates()
    &&& forall|j: int| 0 <= j < qviews.len() ==> (#[trigger] qviews[j]) == pn || exists|e: int|
        0 <= e < entries.len() && (#[trigger] entries[e]).0 == qviews[j]
}

/// A queue of distinct names drawn from the members and the project can
/// never outgrow the member count by more than one.
proof fn lemma_queue_bound(
    qviews: Seq<Seq<char>>,
    entries: Seq<(Seq<char>, Seq<char>, ManifestView)>,
    pn: Seq<char>,
)
    requires
        queue_ok(qviews, entries, pn),
    ensures
        qviews.len() <= entries.len() + 1,
{
    broadcast use vstd::seq_lib::seq_to_set_is_finite;
    broadcast use vstd::set::group_set_axioms;

    let names = entries.map_values(|t: (Seq<char>, Seq<char>, ManifestView)| t.0);
    let u = names.to_set().insert(pn);
    qviews.unique_seq_to_set();
    names.lemma_cardinality_of_set();
    assert forall|x: Seq<char>| qviews.to_set().contains(x) implies u.contains(x) by {
        let j = choose|j: int| 0 <= j < qviews.len() && qviews[j] == x;
        if x == pn {
        } else {
            let e = choose|e: int| 0 <= e < entries.len() && (#[trigger] entries[e]).0 == x;
            assert(names[e] == x);
            assert(names.to_set().contains(x));
        }
    }
    assert(qviews.to_set().subset_of(u));
    vstd::set_lib::lemma_len_subset(qviews.to_set(), u);
    assert(u.len() <= names.to_set().len() + 1);
}

/// Whether a name is already listed.
fn name_listed(queue: &Vec<PackageName>, n: &PackageName) -> (r: bool)
    ensures
        r == queue@.map_values(|x: PackageName| x@).contains(n@),
{
    let mut i: usize = 0;
    while i < queue.len()
        invariant
            i <= queue@.len(),
            forall|j: int| 0 <= j < i ==> #[trigger] queue@[j]@ != n@,
        decreases queue@.len() - i,
    {
        if queue[i].same(n) {
            proof {
                assert(queue@.map_values(|x: PackageName| x@)[i as int] == n@);
            }
            return true;
        }
        i = i + 1;
    }
    proof {
        let qv = queue@.map_values(|x: PackageName| x@);
        assert forall|j: int| 0 <= j < qv.len() implies qv[j] != n@ by {
            assert(queue@[j]@ != n@);
        }
        if qv.contains(n@) {
            let j = choose|j: int| 0 <= j < qv.len() && qv[j] == n@;
            assert(false);
        }
    }
    false
}

/// Find the workspace member of this name.
fn find_member(packages: &Vec<(PackageName, WorkspaceMember)>, n: &PackageName) -> (r: Option<
    usize,
>)
    ensures
        match r {
            Some(i) => i < packages@.len() && packages@[i as int].0@ == n@,
            None => forall|j: int| 0 <= j < packages@.len() ==> (#[trigger] packages@[j]).0@ != n@,
        },
{
    let mut i: usize = 0;
    while i < packages.len()
        invariant
            i <= packages@.len(),
            forall|j: int| 0 <= j < i ==> (#[trigger] packages@[j]).0@ != n@,
        decreases packages@.len() - i,
    {
        if packages[i].0.same(n) {
            return Some(i);
        }
        i = i + 1;
    }
    None
}

/// Whether every gathered requirement is a member's plain dependency, with
/// no digests attached.
pub open spec fn gathered_reqs_ok(
    reqs: Seq<RequirementEntry>,
    entries: Seq<(Seq<char>, Seq<char>, ManifestView)>,
) -> bool {
    forall|k: int| 0 <= k < reqs.len() ==> (#[trigger] entry_view(&reqs[k])).1.len() == 0 && (
    entry_view(&reqs[k]).0 matches AnyReqView::Named(rv) && justified_requirement(entries, rv))
}

/// Whether every gathered editable is a member's editable dependency.
pub open spec fn gathered_eds_ok(
    eds: Seq<EditableRequirement>,
    entries: Seq<(Seq<char>, Seq<char>, ManifestView)>,
) -> bool {
    forall|k: int| 0 <= k < eds.len() ==> justified_editable(
        entries,
        editable_view(#[trigger] &eds[k]),
    )
}

/// Whether every dependency the project itself declares was gathered.
pub open spec fn project_covered(
    entries: Seq<(Seq<char>, Seq<char>, ManifestView)>,
    pn: Seq<char>,
    reqs: Seq<RequirementEntry>,
    eds: Seq<EditableRequirement>,
) -> bool {
    forall|i: int| 0 <= i < entries.len() && (#[trigger] entries[i]).0 == pn
        ==> match entries[i].2.project {
        Some(pj) => forall|d: int| 0 <= d < pj.1.len() ==> dep_covered(
            #[trigger] pj.1[d],
            reqs,
            eds,
        ),
        None => true,
    }
}

/// Growing the gathered lists never uncovers a dependency.
proof fn lemma_covered_monotone(
    d: (ReqView, Option<(UrlView, Seq<char>)>),
    reqs0: Seq<RequirementEntry>,
    eds0: Seq<EditableRequirement>,
    reqs: Seq<RequirementEntry>,
    eds: Seq<EditableRequirement>,
)
    requires
        dep_covered(d, reqs0, eds0),
        reqs0.len() <= reqs.len(),
        eds0.len() <= eds.len(),
        reqs0 == reqs.subrange(0, reqs0.len() as int),
        eds0 == eds.subrange(0, eds0.len() as int),
    ensures
        dep_covered(d, reqs, eds),
{
    match d.1 {
        Some(lp) => {
            let k = choose|k: int|
                0 <= k < eds0.len() && editable_view(#[trigger] &eds0[k]) == (EditableView {
                    url: lp.0,
                    path: lp.1,
                    extras: d.0.extras,
                    origin: d.0.origin,
                });
            assert(eds.subrange(0, eds0.len() as int)[k] == eds[k]);
            assert(editable_view(&eds[k]) == (EditableView {
                url: lp.0,
                path: lp.1,
                extras: d.0.extras,
                origin: d.0.origin,
            }));
        },
        None => {
            let k = choose|k: int|
                0 <= k < reqs0.len() && entry_view(#[trigger] &reqs0[k]) == (
                    AnyReqView::Named(d.0),
                    Seq::<Seq<char>>::empty(),
                );
            assert(reqs.subrange(0, reqs0.len() as int)[k] == reqs[k]);
            assert(entry_view(&reqs[k]) == (AnyReqView::Named(d.0), Seq::<Seq<char>>::empty()));
        },
    }
}

/// Growing the gathered lists keeps the project covered.
proof fn lemma_project_covered_monotone(
    entries: Seq<(Seq<char>, Seq<char>, ManifestView)>,
    pn: Seq<char>,
    reqs0: Seq<RequirementEntry>,
    eds0: Seq<EditableRequirement>,
    reqs: Seq<RequirementEntry>,
    eds: Seq<EditableRequirement>,
)
    requires
        project_covered(entries, pn, reqs0, eds0),
        reqs0.len() <= reqs.len(),
        eds0.len() <= eds.len(),
        reqs0 == reqs.subrange(0, reqs0.len() as int),
        eds0 == eds.subrange(0, eds0.len() as int),
    ensures
        project_covered(entries, pn, reqs, eds),
{
    assert forall|i: int| 0 <= i < entries.len() && (#[trigger] entries[i]).0 == pn
        implies match entries[i].2.project {
        Some(pj) => forall|d: int| 0 <= d < pj.1.len() ==> dep_covered(
            #[trigger] pj.1[d],
            reqs,
            eds,
        ),
        None => true,
    } by {
        match entries[i].2.project {
            Some(pj) => {
                assert forall|d: int| 0 <= d < pj.1.len() implies dep_covered(
                    #[trigger] pj.1[d],
                    reqs,
                    eds,
                ) by {
                    lemma_covered_monotone(pj.1[d], reqs0, eds0, reqs, eds);
                }
            },
            None => {},
        }
    }
}

/// How many dependencies a member-map entry declares.
pub open spec fn entry_dep_count(e: (Seq<char>, Seq<char>, ManifestView)) -> int {
    match e.2.project {
        Some(pj) => pj.1.len() as int,
        None => 0,
    }
}

/// One declared dependency of a member-map entry.
pub open spec fn entry_dep(e: (Seq<char>, Seq<char>, ManifestView), d: int) -> (
    ReqView,
    Option<(UrlView, Seq<char>)>,
) {
    match e.2.project {
        Some(pj) => pj.1[d],
        None => arbitrary(),
    }
}

/// Whether every dependency a member-map entry declares was gathered.
pub open spec fn member_deps_covered(
    e: (Seq<char>, Seq<char>, ManifestView),
    reqs: Seq<RequirementEntry>,
    eds: Seq<EditableRequirement>,
) -> bool {
    forall|d: int| 0 <= d < entry_dep_count(e) ==> dep_covered(
        #[trigger] entry_dep(e, d),
        reqs,
        eds,
    )
}

/// Whether some member carries this name.
pub open spec fn has_member_named(
    entries: Seq<(Seq<char>, Seq<char>, ManifestView)>,
    n: Seq<char>,
) -> bool {
    exists|m: int| 0 <= m < entries.len() && (#[trigger] entries[m]).0 == n
}

/// Whether every member of this name has all its dependencies gathered.
pub open spec fn processed_name_ok(
    n: Seq<char>,
    entries: Seq<(Seq<char>, Seq<char>, ManifestView)>,
    reqs: Seq<RequirementEntry>,
    eds: Seq<EditableRequirement>,
) -> bool {
    forall|i: int| 0 <= i < entries.len() && (#[trigger] entries[i]).0 == n
        ==> member_deps_covered(entries[i], reqs, eds)
}

/// Whether every editable dependency of a member of this name that names
/// another member leads into the listed names.
pub open spec fn processed_edges_ok(
    n: Seq<char>,
    entries: Seq<(Seq<char>, Seq<char>, ManifestView)>,
    qv: Seq<Seq<char>>,
) -> bool {
    forall|i: int, d: int|
        0 <= i < entries.len() && (#[trigger] entries[i]).0 == n && 0 <= d < entry_dep_count(
            entries[i],
        ) && (#[trigger] entry_dep(entries[i], d)).1 is Some && has_member_named(
            entries,
            entry_dep(entries[i], d).0.name,
        ) ==> qv.contains(entry_dep(entries[i], d).0.name)
}

/// The traversal is closed: a set of names holds the project, every member
/// it names has all its dependencies gathered, and every editable
/// dependency of such a member that names another member is in the set
/// too. Following the set from the project reaches every member on an
/// editable chain, each with its dependencies gathered.
pub open spec fn traversal_closed(
    processed: Set<Seq<char>>,
    pn: Seq<char>,
    entries: Seq<(Seq<char>, Seq<char>, ManifestView)>,
    reqs: Seq<RequirementEntry>,
    eds: Seq<EditableRequirement>,
) -> bool {
    &&& processed.contains(pn)
    &&& forall|i: int| 0 <= i < entries.len() && processed.contains((#[trigger] entries[i]).0)
        ==> member_deps_covered(entries[i], reqs, eds)
    &&& forall|i: int, d: int|
        0 <= i < entries.len() && processed.contains((#[trigger] entries[i]).0) && 0 <= d
            < entry_dep_count(entries[i]) && (#[trigger] entry_dep(entries[i], d)).1 is Some
            && has_member_named(entries, entry_dep(entries[i], d).0.name) ==> processed.contains(
            entry_dep(entries[i], d).0.name,
        )
}

/// Growing the gathered lists keeps a member's dependencies covered.
proof fn lemma_name_ok_monotone(
    n: Seq<char>,
    entries: Seq<(Seq<char>, Seq<char>, ManifestView)>,
    reqs0: Seq<RequirementEntry>,
    eds0: Seq<EditableRequirement>,
    reqs: Seq<RequirementEntry>,
    eds: Seq<EditableRequirement>,
)
    requires
        processed_name_ok(n, entries, reqs0, eds0),
        reqs0.len() <= reqs.len(),
        eds0.len() <= eds.len(),
        reqs0 == reqs.subrange(0, reqs0.len() as int),
        eds0 == eds.subrange(0, eds0.len() as int),
    ensures
        processed_name_ok(n, entries, reqs, eds),
{
    assert forall|i: int| 0 <= i < entries.len() && (#[trigger] entries[i]).0 == n
        implies member_deps_covered(entries[i], reqs, eds) by {
        assert forall|d: int| 0 <= d < entry_dep_count(entries[i]) implies dep_covered(
            #[trigger] entry_dep(entries[i], d),
            reqs,
            eds,
        ) by {
            lemma_covered_monotone(entry_dep(entries[i], d), reqs0, eds0, reqs, eds);
        }
    }
}

/// Growing the listed names keeps the edges leading into them.
proof fn lemma_edges_monotone(
    n: Seq<char>,
    entries: Seq<(Seq<char>, Seq<char>, ManifestView)>,
    qv0: Seq<Seq<char>>,
    qv: Seq<Seq<char>>,
)
    requires
        processed_edges_ok(n, entries, qv0),
        forall|x: Seq<char>| qv0.contains(x) ==> qv.contains(x),
    ensures
        processed_edges_ok(n, entries, qv),
{
}

/// Every name listed in a prefix is listed in the whole.
proof fn lemma_prefix_contains(qv0: Seq<Seq<char>>, qv: Seq<Seq<char>>)
    requires
        qv0.len() <= qv.len(),
        qv0 == qv.subrange(0, qv0.len() as int),
    ensures
        forall|x: Seq<char>| qv0.contains(x) ==> qv.contains(x),
{
    assert forall|x: Seq<char>| qv0.contains(x) implies qv.contains(x) by {
        let j = choose|j: int| 0 <= j < qv0.len() && qv0[j] == x;
        assert(qv[j] == x);
    }
}

/// What gathering a discovered project's requirements must yield.
pub open spec fn pyproject_outcome(
    pw: &ProjectWorkspace,
    r: &Result<RequirementsSpecification, AggregateError>,
) -> bool {
    let entries = pw.spec_workspace().spec_packages();
    r matches Ok(s) && {
        &&& s.project matches Some(n) && n@ == pw.spec_project_name()
        &&& s.constraints@.len() == 0
        &&& s.overrides@.len() == 0
        &&& s.source_trees@.len() == 0
        &&& spec_no_index_config(s)
        &&& gathered_reqs_ok(s.requirements@, entries)
        &&& gathered_eds_ok(s.editables@, entries)
        &&& project_covered(entries, pw.spec_project_name(), s.requirements@, s.editables@)
        &&& exists|processed: Set<Seq<char>>| #[trigger] traversal_closed(
            processed,
            pw.spec_project_name(),
            entries,
            s.requirements@,
            s.editables@,
        )
    }
}

impl RequirementsSpecification {
    /// Gather the requirements a discovered project implies. Workspace
    /// members reachable from the project over editable declarations are
    /// traversed in turn; each editable dependency becomes an editable
    /// requirement and every other declared dependency an ordinary one.
    pub fn parse_direct_pyproject_toml(project_workspace: &ProjectWorkspace) -> (r: Result<
        RequirementsSpecification,
        AggregateError,
    >)
        requires
            unique_names(project_workspace.spec_workspace().spec_packages()),
        ensures
            pyproject_outcome(project_workspace, &r),
    {
        let ghost entries = project_workspace.spec_workspace().spec_packages();
        let ghost pn = project_workspace.spec_project_name();
        let packages = project_workspace.workspace().packages();
        let project_name = project_workspace.project_name().dup();

        let mut queue: Vec<PackageName> = Vec::new();
        queue.push(project_name.dup());
        let mut qi: usize = 0;
        let mut requirements: Vec<RequirementEntry> = Vec::new();
        let mut editables: Vec<EditableRequirement> = Vec::new();
        let mut used_extras: Vec<String> = Vec::new();

        proof {
            assert(queue@.map_values(|x: PackageName| x@) =~= seq![pn]);
        }

        while qi < queue.len()
            invariant
                qi <= queue@.len(),
                member_entry_views(packages@) == entries,
                unique_names(entries),
                project_name@ == pn,
                queue@.len() >= 1,
                queue@[0]@ == pn,
                queue_ok(queue@.map_values(|x: PackageName| x@), entries, pn),
                queue@.len() <= entries.len() + 1,
                gathered_reqs_ok(requirements@, entries),
                gathered_eds_ok(editables@, entries),
                qi >= 1 ==> project_covered(entries, pn, requirements@, editables@),
                forall|p: int| 0 <= p < qi ==> processed_name_ok(
                    #[trigger] queue@[p]@,
                    entries,
                    requirements@,
                    editables@,
                ),
                forall|p: int| 0 <= p < qi ==> processed_edges_ok(
                    #[trigger] queue@[p]@,
                    entries,
                    queue@.map_values(|x: PackageName| x@),
                ),
            decreases entries.len() + 1 - queue@.len(), queue@.len() - qi,
        {
            let ghost reqs0 = requirements@;
            let ghost eds0 = editables@;
            let ghost qi0 = qi;
            let ghost qlen0 = queue@.len();
            let ghost q_start = queue@;
            let current = queue[qi].dup();
            proof {
                assert(queue@.map_values(|x: PackageName| x@)[qi as int] == queue@[qi as int]@);
                if qi0 > 0 {
                    assert(queue@.map_values(|x: PackageName| x@)[0] == pn);
                    assert(current@ != pn);
                }
                assert(forall|p: int| 0 <= p < qi0 ==> processed_name_ok(
                    #[trigger] q_start[p]@,
                    entries,
                    reqs0,
                    eds0,
                ));
                assert(forall|p: int| 0 <= p < qi0 ==> processed_edges_ok(
                    #[trigger] q_start[p]@,
                    entries,
                    q_start.map_values(|x: PackageName| x@),
                ));
            }
            qi = qi + 1;
            match find_member(packages, &current) {
                None => {
                    proof {
                        if current@ == pn {
                            assert forall|i: int|
                                0 <= i < entries.len() && (#[trigger] entries[i]).0 == pn
                                    implies false by {
                                assert(entries[i] == (
                                    packages@[i].0@,
                                    packages@[i].1.spec_root(),
                                    packages@[i].1.spec_manifest(),
                                ));
                                assert(packages@[i].0@ != current@);
                            }
                            assert(project_covered(entries, pn, requirements@, editables@));
                        }
                        assert forall|i: int|
                            0 <= i < entries.len() && (#[trigger] entries[i]).0 == current@
                                implies false by {
                            assert(entries[i] == (
                                packages@[i].0@,
                                packages@[i].1.spec_root(),
                                packages@[i].1.spec_manifest(),
                            ));
                            assert(packages@[i].0@ != current@);
                        }
                        assert(processed_name_ok(
                            current@,
                            entries,
                            requirements@,
                            editables@,
                        ));
                        assert(processed_edges_ok(
                            current@,
                            entries,
                            queue@.map_values(|x: PackageName| x@),
                        ));
                        assert forall|p: int| 0 <= p < qi implies processed_name_ok(
                            #[trigger] queue@[p]@,
                            entries,
                            requirements@,
                            editables@,
                        ) by {
                            if p < qi0 {
                            } else {
                                assert(queue@[p]@ == current@);
                            }
                        }
                        assert forall|p: int| 0 <= p < qi implies processed_edges_ok(
                            #[trigger] queue@[p]@,
                            entries,
                            queue@.map_values(|x: PackageName| x@),
                        ) by {
                            if p < qi0 {
                            } else {
                                assert(queue@[p]@ == current@);
                            }
                        }
                    }
                },
                Some(mi) => {
                    let member: &WorkspaceMember = &packages[mi].1;
                    let manifest = member.pyproject_toml();
                    proof {
                        assert(member_entry_views(packages@)[mi as int] == (
                            packages@[mi as int].0@,
                            packages@[mi as int].1.spec_root(),
                            packages@[mi as int].1.spec_manifest(),
                        ));
                        assert(manifest_view(manifest) == entries[mi as int].2);
                        assert(entries[mi as int].0 == current@);
                    }
                    match &manifest.project {
                        None => {
                            proof {
                                if current@ == pn {
                                    assert forall|i: int|
                                        0 <= i < entries.len() && (#[trigger] entries[i]).0 == pn
                                            implies match entries[i].2.project {
                                        Some(pj) => forall|d: int| 0 <= d < pj.1.len()
                                            ==> dep_covered(
                                            #[trigger] pj.1[d],
                                            requirements@,
                                            editables@,
                                        ),
                                        None => true,
                                    } by {
                                        if i != mi as int {
                                            if i < mi as int {
                                                assert(entries[i].0 != entries[mi as int].0);
                                            } else {
                                                assert(entries[mi as int].0 != entries[i].0);
                                            }
                                        }
                                        assert(i == mi as int);
                                        assert(entries[i].2.project is None);
                                    }
                                }
                                assert forall|i: int|
                                    0 <= i < entries.len() && (#[trigger] entries[i]).0
                                        == current@ implies entry_dep_count(entries[i]) == 0 by {
                                    if i != mi as int {
                                        if i < mi as int {
                                            assert(entries[i].0 != entries[mi as int].0);
                                        } else {
                                            assert(entries[mi as int].0 != entries[i].0);
                                        }
                                    }
                                    assert(i == mi as int);
                                    assert(entries[i].2.project is None);
                                }
                                assert(processed_name_ok(
                                    current@,
                                    entries,
                                    requirements@,
                                    editables@,
                                ));
                                assert(processed_edges_ok(
                                    current@,
                                    entries,
                                    queue@.map_values(|x: PackageName| x@),
                                ));
                                assert forall|p: int| 0 <= p < qi implies processed_name_ok(
                                    #[trigger] queue@[p]@,
                                    entries,
                                    requirements@,
                                    editables@,
                                ) by {
                                    if p < qi0 {
                                    } else {
                                        assert(queue@[p]@ == current@);
                                    }
                                }
                                assert forall|p: int| 0 <= p < qi implies processed_edges_ok(
                                    #[trigger] queue@[p]@,
                                    entries,
                                    queue@.map_values(|x: PackageName| x@),
                                ) by {
                                    if p < qi0 {
                                    } else {
                                        assert(queue@[p]@ == current@);
                                    }
                                }
                            }
                        },
                        Some(ps) => {
                            proof {
                                assert(entries[mi as int].2.project matches Some(pj) && pj.1
                                    == dep_views(ps.dependencies@));
                            }
                            let mut xi: usize = 0;
                            while xi < ps.used_extras.len()
                                invariant
                                    xi <= ps.used_extras@.len(),
                                decreases ps.used_extras@.len() - xi,
                            {
                                used_extras.push(ps.used_extras[xi].clone());
                                xi = xi + 1;
                            }
                            let mut di: usize = 0;
                            while di < ps.dependencies.len()
                                invariant
                                    di <= ps.dependencies@.len(),
                                    member_entry_views(packages@) == entries,
                                    unique_names(entries),
                                    mi < packages@.len(),
                                    entries[mi as int].2.project matches Some(pj) && pj.1
                                        == dep_views(ps.dependencies@),
                                    queue@.len() >= 1,
                                    queue@[0]@ == pn,
                                    queue_ok(queue@.map_values(|x: PackageName| x@), entries, pn),
                                    queue@.len() <= entries.len() + 1,
                                    queue@.len() >= qlen0,
                                    q_start.len() == qlen0,
                                    q_start == queue@.subrange(0, qlen0 as int),
                                    forall|d: int| (0 <= d < di && (#[trigger] dep_views(
                                        ps.dependencies@,
                                    )[d]).1 is Some && has_member_named(
                                        entries,
                                        dep_views(ps.dependencies@)[d].0.name,
                                    )) ==> queue@.map_values(|x: PackageName| x@).contains(
                                        dep_views(ps.dependencies@)[d].0.name,
                                    ),
                                    gathered_reqs_ok(requirements@, entries),
                                    gathered_eds_ok(editables@, entries),
                                    reqs0.len() <= requirements@.len(),
                                    eds0.len() <= editables@.len(),
                                    reqs0 == requirements@.subrange(0, reqs0.len() as int),
                                    eds0 == editables@.subrange(0, eds0.len() as int),
                                    forall|d: int| 0 <= d < di ==> dep_covered(
                                        #[trigger] dep_views(ps.dependencies@)[d],
                                        requirements@,
                                        editables@,
                                    ),
                                decreases ps.dependencies@.len() - di,
                            {
                                let ghost ri = requirements@;
                                let ghost ei = editables@;
                                let ghost qv_i = queue@.map_values(|x: PackageName| x@);
                                let dep = &ps.dependencies[di];
                                proof {
                                    assert(dep_views(ps.dependencies@)[di as int] == dep_view(
                                        dep,
                                    ));
                                }
                                match &dep.editable {
                                    Some(le) => {
                                        let u = le.url.dup();
                                        proof {
                                            assert(url_view(&u) =~= url_view(&le.url));
                                        }
                                        let e = EditableRequirement {
                                            url: u,
                                            path: le.path.clone(),
                                            extras: dup_texts(&dep.requirement.extras),
                                            origin: dup_origin(&dep.requirement.origin),
                                        };
                                        proof {
                                            assert(editable_view(&e) =~= (EditableView {
                                                url: url_view(&le.url),
                                                path: le.path@,
                                                extras: text_views(dep.requirement.extras@),
                                                origin: crate::requirement::origin_view(
                                                    &dep.requirement.origin,
                                                ),
                                            }));
                                            assert(member_has_editable_dep(
                                                entries[mi as int].2,
                                                editable_view(&e),
                                            ));
                                            assert(justified_editable(
                                                entries,
                                                editable_view(&e),
                                            ));
                                        }
                                        editables.push(e);
                                        let nm = dep.requirement.name.dup();
                                        proof {
                                            assert(nm@ == dep_views(
                                                ps.dependencies@,
                                            )[di as int].0.name);
                                        }
                                        let listed = name_listed(&queue, &nm);
                                        match find_member(packages, &nm) {
                                            None => {
                                                proof {
                                                    assert forall|m: int|
                                                        0 <= m < entries.len() implies (
                                                    #[trigger] entries[m]).0 != nm@ by {
                                                        assert(entries[m] == (
                                                            packages@[m].0@,
                                                            packages@[m].1.spec_root(),
                                                            packages@[m].1.spec_manifest(),
                                                        ));
                                                    }
                                                    assert(!has_member_named(entries, nm@));
                                                }
                                            },
                                            Some(ix) => {
                                                if !listed {
                                                    let ghost qv0 = queue@.map_values(
                                                        |x: PackageName| x@,
                                                    );
                                                    queue.push(nm);
                                                    proof {
                                                        let qv = queue@.map_values(
                                                            |x: PackageName| x@,
                                                        );
                                                        assert(qv =~= qv0.push(
                                                            queue@.last()@,
                                                        ));
                                                        assert(member_entry_views(
                                                            packages@,
                                                        )[ix as int] == (
                                                            packages@[ix as int].0@,
                                                            packages@[ix as int].1.spec_root(),
                                                            packages@[ix as int].1.spec_manifest(),
                                                        ));
                                                        assert(entries[ix as int].0
                                                            == queue@.last()@);
                                                        assert forall|a: int, b: int|
                                                            0 <= a < b < qv.len() implies qv[a]
                                                            != qv[b] by {
                                                            if b < qv.len() - 1 {
                                                                assert(qv0[a] != qv0[b]);
                                                            } else {
                                                                assert(qv[b] == queue@.last()@);
                                                                assert(!qv0.contains(
                                                                    queue@.last()@,
                                                                ));
                                                                assert(qv[a] == qv0[a]);
                                                            }
                                                        }
                                                        assert(queue_ok(qv, entries, pn));
                                                        lemma_queue_bound(qv, entries, pn);
                                                        assert(qv[qv.len() - 1] == dep_views(
                                                            ps.dependencies@,
                                                        )[di as int].0.name);
                                                        assert(qv.contains(dep_views(
                                                            ps.dependencies@,
                                                        )[di as int].0.name));
                                                    }
                                                } else {
                                                    proof {
                                                        assert(queue@.map_values(
                                                            |x: PackageName| x@,
                                                        ).contains(dep_views(
                                                            ps.dependencies@,
                                                        )[di as int].0.name));
                                                    }
                                                }
                                            },
                                        }
                                        proof {
                                            assert((dep_views(ps.dependencies@)[di as int].1
                                                is Some && has_member_named(
                                                entries,
                                                dep_views(ps.dependencies@)[di as int].0.name,
                                            )) ==> queue@.map_values(|x: PackageName| x@).contains(
                                                dep_views(ps.dependencies@)[di as int].0.name,
                                            ));
                                        }
                                    },
                                    None => {
                                        let e = RequirementEntry {
                                            requirement: UnresolvedRequirement::Named(
                                                dep.requirement.dup(),
                                            ),
                                            hashes: Vec::new(),
                                        };
                                        proof {
                                            assert(entry_view(&e) =~= (
                                                AnyReqView::Named(req_view(&dep.requirement)),
                                                Seq::<Seq<char>>::empty(),
                                            ));
                                            assert(member_has_plain_dep(
                                                entries[mi as int].2,
                                                req_view(&dep.requirement),
                                            ));
                                            assert(justified_requirement(
                                                entries,
                                                req_view(&dep.requirement),
                                            ));
                                        }
                                        requirements.push(e);
                                    },
                                }
                                proof {
                                    assert(ri == requirements@.subrange(0, ri.len() as int));
                                    assert(ei == editables@.subrange(0, ei.len() as int));
                                    assert(reqs0 == requirements@.subrange(0, reqs0.len() as int));
                                    assert(eds0 == editables@.subrange(0, eds0.len() as int));
                                    assert forall|d: int| 0 <= d < di implies dep_covered(
                                        #[trigger] dep_views(ps.dependencies@)[d],
                                        requirements@,
                                        editables@,
                                    ) by {
                                        lemma_covered_monotone(
                                            dep_views(ps.dependencies@)[d],
                                            ri,
                                            ei,
                                            requirements@,
                                            editables@,
                                        );
                                    }
                                    let qv_now = queue@.map_values(|x: PackageName| x@);
                                    assert(qv_i.len() <= qv_now.len());
                                    assert(qv_i =~= qv_now.subrange(0, qv_i.len() as int));
                                    lemma_prefix_contains(qv_i, qv_now);
                                    assert forall|d: int|
                                        (0 <= d < di + 1 && (#[trigger] dep_views(
                                            ps.dependencies@,
                                        )[d]).1 is Some && has_member_named(
                                            entries,
                                            dep_views(ps.dependencies@)[d].0.name,
                                        )) implies qv_now.contains(
                                        dep_views(ps.dependencies@)[d].0.name,
                                    ) by {
                                        if d < di {
                                        }
                                    }
                                    assert(dep_covered(
                                        dep_views(ps.dependencies@)[di as int],
                                        requirements@,
                                        editables@,
                                    )) by {
                                        match dep_views(ps.dependencies@)[di as int].1 {
                                            Some(lp) => {
                                                assert(editable_view(
                                                    &editables@[editables@.len() - 1],
                                                ) == (EditableView {
                                                    url: lp.0,
                                                    path: lp.1,
                                                    extras: dep_views(
                                                        ps.dependencies@,
                                                    )[di as int].0.extras,
                                                    origin: dep_views(
                                                        ps.dependencies@,
                                                    )[di as int].0.origin,
                                                }));
                                            },
                                            None => {
                                                assert(entry_view(
                                                    &requirements@[requirements@.len() - 1],
                                                ) == (
                                                    AnyReqView::Named(
                                                        dep_views(ps.dependencies@)[di as int].0,
                                                    ),
                                                    Seq::<Seq<char>>::empty(),
                                                ));
                                            },
                                        }
                                    }
                                }
                                di = di + 1;
                            }
                            proof {
                                if current@ == pn {
                                    assert forall|i: int|
                                        0 <= i < entries.len() && (#[trigger] entries[i]).0 == pn
                                            implies match entries[i].2.project {
                                        Some(pj) => forall|d: int| 0 <= d < pj.1.len()
                                            ==> dep_covered(
                                            #[trigger] pj.1[d],
                                            requirements@,
                                            editables@,
                                        ),
                                        None => true,
                                    } by {
                                        if i != mi as int {
                                            if i < mi as int {
                                                assert(entries[i].0 != entries[mi as int].0);
                                            } else {
                                                assert(entries[mi as int].0 != entries[i].0);
                                            }
                                        }
                                        assert(i == mi as int);
                                    }
                                    assert(project_covered(
                                        entries,
                                        pn,
                                        requirements@,
                                        editables@,
                                    ));
                                } else {
                                    lemma_project_covered_monotone(
                                        entries,
                                        pn,
                                        reqs0,
                                        eds0,
                                        requirements@,
                                        editables@,
                                    );
                                }
                                // The member just processed is fully
                                // gathered, and the names its editable
                                // dependencies lead to are listed.
                                let qv_now = queue@.map_values(|x: PackageName| x@);
                                assert(q_start.len() <= queue@.len());
                                assert(q_start =~= queue@.subrange(0, q_start.len() as int));
                                assert forall|x: Seq<char>|
                                    q_start.map_values(|y: PackageName| y@).contains(x)
                                        implies #[trigger] qv_now.contains(x) by {
                                    assert(exists|j: int|
                                        0 <= j < q_start.len() && (#[trigger] q_start[j])@ == x);
                                    let j = choose|j: int|
                                        0 <= j < q_start.len() && (#[trigger] q_start[j])@ == x;
                                    assert(queue@[j] == q_start[j]);
                                    assert(qv_now[j] == x);
                                }
                                assert forall|i: int|
                                    0 <= i < entries.len() && (#[trigger] entries[i]).0
                                        == current@ implies member_deps_covered(
                                    entries[i],
                                    requirements@,
                                    editables@,
                                ) by {
                                    if i != mi as int {
                                        if i < mi as int {
                                            assert(entries[i].0 != entries[mi as int].0);
                                        } else {
                                            assert(entries[mi as int].0 != entries[i].0);
                                        }
                                    }
                                    assert(i == mi as int);
                                    assert forall|d: int|
                                        0 <= d < entry_dep_count(entries[i]) implies dep_covered(
                                        #[trigger] entry_dep(entries[i], d),
                                        requirements@,
                                        editables@,
                                    ) by {
                                        assert(entry_dep(entries[i], d) == dep_views(
                                            ps.dependencies@,
                                        )[d]);
                                    }
                                }
                                assert(processed_name_ok(
                                    current@,
                                    entries,
                                    requirements@,
                                    editables@,
                                ));
                                assert forall|i: int, d: int|
                                    0 <= i < entries.len() && (#[trigger] entries[i]).0
                                        == current@ && 0 <= d < entry_dep_count(entries[i]) && (
                                    #[trigger] entry_dep(entries[i], d)).1 is Some
                                        && has_member_named(
                                        entries,
                                        entry_dep(entries[i], d).0.name,
                                    ) implies qv_now.contains(entry_dep(entries[i], d).0.name) by {
                                    if i != mi as int {
                                        if i < mi as int {
                                            assert(entries[i].0 != entries[mi as int].0);
                                        } else {
                                            assert(entries[mi as int].0 != entries[i].0);
                                        }
                                    }
                                    assert(i == mi as int);
                                    assert(entry_dep(entries[i], d) == dep_views(
                                        ps.dependencies@,
                                    )[d]);
                                }
                                assert(processed_edges_ok(current@, entries, qv_now));
                                assert forall|p: int| 0 <= p < qi implies processed_name_ok(
                                    #[trigger] queue@[p]@,
                                    entries,
                                    requirements@,
                                    editables@,
                                ) by {
                                    if p < qi0 {
                                        assert(queue@[p] == q_start[p]);
                                        lemma_name_ok_monotone(
                                            q_start[p]@,
                                            entries,
                                            reqs0,
                                            eds0,
                                            requirements@,
                                            editables@,
                                        );
                                    } else {
                                        assert(queue@[p] == q_start[p]);
                                        assert(queue@[p]@ == current@);
                                    }
                                }
                                assert forall|p: int| 0 <= p < qi implies processed_edges_ok(
                                    #[trigger] queue@[p]@,
                                    entries,
                                    qv_now,
                                ) by {
                                    if p < qi0 {
                                        assert(queue@[p] == q_start[p]);
                                        lemma_edges_monotone(
                                            q_start[p]@,
                                            entries,
                                            q_start.map_values(|y: PackageName| y@),
                                            qv_now,
                                        );
                                    } else {
                                        assert(queue@[p] == q_start[p]);
                                        assert(queue@[p]@ == current@);
                                    }
                                }
                            }
                        },
                    }
                },
            }
            proof {
                if current@ != pn {
                    assert(qi0 >= 1);
                }
            }
        }
        proof {
            broadcast use vstd::set::group_set_axioms;

            let qv = queue@.map_values(|x: PackageName| x@);
            let processed = qv.to_set();
            assert(qv[0] == pn);
            assert(qv.contains(pn));
            assert(processed.contains(pn));
            assert forall|i: int|
                0 <= i < entries.len() && processed.contains((#[trigger] entries[i]).0)
                    implies member_deps_covered(entries[i], requirements@, editables@) by {
                let p = choose|p: int| 0 <= p < qv.len() && qv[p] == entries[i].0;
                assert(processed_name_ok(queue@[p]@, entries, requirements@, editables@));
            }
            assert forall|i: int, d: int|
                0 <= i < entries.len() && processed.contains((#[trigger] entries[i]).0) && 0 <= d
                    < entry_dep_count(entries[i]) && (#[trigger] entry_dep(entries[i], d)).1
                    is Some && has_member_named(entries, entry_dep(entries[i], d).0.name)
                    implies processed.contains(entry_dep(entries[i], d).0.name) by {
                let p = choose|p: int| 0 <= p < qv.len() && qv[p] == entries[i].0;
                assert(processed_edges_ok(queue@[p]@, entries, qv));
                assert(qv.contains(entry_dep(entries[i], d).0.name));
            }
            assert(traversal_closed(processed, pn, entries, requirements@, editables@));
        }
        let mut s = RequirementsSpecification::new_empty();
        s.project = Some(project_name);
        s.requirements = requirements;
        s.editables = editables;
        s.extras = used_extras;
        Ok(s)
    }
}


/// Whether two entry lists denote the same requirements and digests.
pub open spec fn entries_equiv(a: Seq<RequirementEntry>, b: Seq<RequirementEntry>) -> bool {
    a.len() == b.len() && forall|k: int| 0 <= k < a.len() ==> entry_view(#[trigger] &a[k])
        == entry_view(&b[k])
}

/// Whether two requirement lists denote the same requirements.
pub open spec fn reqs_equiv(a: Seq<Requirement>, b: Seq<Requirement>) -> bool {
    a.len() == b.len() && forall|k: int| 0 <= k < a.len() ==> req_view(#[trigger] &a[k])
        == req_view(&b[k])
}

/// Whether two editable lists denote the same declarations.
pub open spec fn eds_equiv(a: Seq<EditableRequirement>, b: Seq<EditableRequirement>) -> bool {
    a.len() == b.len() && forall|k: int| 0 <= k < a.len() ==> editable_view(#[trigger] &a[k])
        == editable_view(&b[k])
}

/// Whether two locator lists denote the same locators.
pub open spec fn urls_equiv(a: Seq<Url>, b: Seq<Url>) -> bool {
    a.len() == b.len() && forall|k: int| 0 <= k < a.len() ==> url_view(#[trigger] &a[k])
        == url_view(&b[k])
}

/// Whether two flat-index lists denote the same sources.
pub open spec fn flats_equiv(a: Seq<FlatIndexLocation>, b: Seq<FlatIndexLocation>) -> bool {
    a.len() == b.len() && forall|k: int| 0 <= k < a.len() ==> flat_index_view(#[trigger] &a[k])
        == flat_index_view(&b[k])
}

/// Whether two optional locators agree.
pub open spec fn opt_url_equiv(a: &Option<Url>, b: &Option<Url>) -> bool {
    match (a, b) {
        (None, None) => true,
        (Some(x), Some(y)) => url_view(x) == url_view(y),
        _ => false,
    }
}

/// The value a discovery fault denotes: a tag and the offending path.
pub open spec fn discover_err_view(e: &DiscoverError) -> (int, Seq<char>) {
    match e {
        DiscoverError::MissingPyprojectToml => (0int, Seq::empty()),
        DiscoverError::Pattern(p) => (1int, p@),
        DiscoverError::Glob(p) => (2int, p@),
        DiscoverError::Io(p) => (3int, p@),
        DiscoverError::Toml(p) => (4int, p@),
        DiscoverError::MissingProject(p) => (5int, p@),
        DiscoverError::Normalize(p) => (6int, p@),
    }
}

/// Copy a discovery fault.
fn dup_discover_error(e: &DiscoverError) -> (r: DiscoverError)
    ensures
        discover_err_view(&r) == discover_err_view(e),
{
    match e {
        DiscoverError::MissingPyprojectToml => DiscoverError::MissingPyprojectToml,
        DiscoverError::Pattern(p) => DiscoverError::Pattern(p.clone()),
        DiscoverError::Glob(p) => DiscoverError::Glob(p.clone()),
        DiscoverError::Io(p) => DiscoverError::Io(p.clone()),
        DiscoverError::Toml(p) => DiscoverError::Toml(p.clone()),
        DiscoverError::MissingProject(p) => DiscoverError::MissingProject(p.clone()),
        DiscoverError::Normalize(p) => DiscoverError::Normalize(p.clone()),
    }
}

/// Copy an entry list.
pub fn dup_entries(v: &Vec<RequirementEntry>) -> (r: Vec<RequirementEntry>)
    ensures
        entries_equiv(r@, v@),
{
    let mut r: Vec<RequirementEntry> = Vec::new();
    let mut i: usize = 0;
    while i < v.len()
        invariant
            i <= v@.len(),
            r@.len() == i,
            forall|k: int| 0 <= k < i ==> entry_view(#[trigger] &r@[k]) == entry_view(&v@[k]),
        decreases v@.len() - i,
    {
        r.push(v[i].dup());
        i = i + 1;
    }
    r
}

/// Copy a requirement list.
pub fn dup_reqs(v: &Vec<Requirement>) -> (r: Vec<Requirement>)
    ensures
        reqs_equiv(r@, v@),
{
    let mut r: Vec<Requirement> = Vec::new();
    let mut i: usize = 0;
    while i < v.len()
        invariant
            i <= v@.len(),
            r@.len() == i,
            forall|k: int| 0 <= k < i ==> req_view(#[trigger] &r@[k]) == req_view(&v@[k]),
        decreases v@.len() - i,
    {
        r.push(v[i].dup());
        i = i + 1;
    }
    r
}

/// Copy an editable list.
pub fn dup_editables(v: &Vec<EditableRequirement>) -> (r: Vec<EditableRequirement>)
    ensures
        eds_equiv(r@, v@),
{
    let mut r: Vec<EditableRequirement> = Vec::new();
    let mut i: usize = 0;
    while i < v.len()
        invariant
            i <= v@.len(),
            r@.len() == i,
            forall|k: int| 0 <= k < i ==> editable_view(#[trigger] &r@[k]) == editable_view(
                &v@[k],
            ),
        decreases v@.len() - i,
    {
        r.push(v[i].dup());
        i = i + 1;
    }
    r
}

/// Copy a locator list.
pub fn dup_urls(v: &Vec<Url>) -> (r: Vec<Url>)
    ensures
        urls_equiv(r@, v@),
{
    let mut r: Vec<Url> = Vec::new();
    let mut i: usize = 0;
    while i < v.len()
        invariant
            i <= v@.len(),
            r@.len() == i,
            forall|k: int| 0 <= k < i ==> url_view(#[trigger] &r@[k]) == url_view(&v@[k]),
        decreases v@.len() - i,
    {
        let u = v[i].dup();
        proof {
            assert(url_view(&u) =~= url_view(&v@[i as int]));
        }
        r.push(u);
        i = i + 1;
    }
    r
}

impl FlatIndexLocation {
    pub fn dup(&self) -> (r: FlatIndexLocation)
        ensures
            flat_index_view(&r) == flat_index_view(self),
    {
        match self {
            FlatIndexLocation::Url(u) => {
                let d = u.dup();
                proof {
                    assert(url_view(&d) =~= url_view(u));
                }
                FlatIndexLocation::Url(d)
            },
            FlatIndexLocation::Path(p) => FlatIndexLocation::Path(p.clone()),
        }
    }
}

/// Copy a flat-index list.
pub fn dup_flats(v: &Vec<FlatIndexLocation>) -> (r: Vec<FlatIndexLocation>)
    ensures
        flats_equiv(r@, v@),
{
    let mut r: Vec<FlatIndexLocation> = Vec::new();
    let mut i: usize = 0;
    while i < v.len()
        invariant
            i <= v@.len(),
            r@.len() == i,
            forall|k: int| 0 <= k < i ==> flat_index_view(#[trigger] &r@[k]) == flat_index_view(
                &v@[k],
            ),
        decreases v@.len() - i,
    {
        r.push(v[i].dup());
        i = i + 1;
    }
    r
}

impl PackageFilter {
    pub fn dup(&self) -> (r: PackageFilter)
        ensures
            filter_view(&r) == filter_view(self),
    {
        match self {
            PackageFilter::NoPackage => PackageFilter::NoPackage,
            PackageFilter::AllPackages => PackageFilter::AllPackages,
            PackageFilter::Packages(v) => {
                let mut r: Vec<PackageName> = Vec::new();
                let mut i: usize = 0;
                while i < v.len()
                    invariant
                        i <= v@.len(),
                        r@.len() == i,
                        forall|k: int| 0 <= k < i ==> #[trigger] r@[k]@ == v@[k]@,
                    decreases v@.len() - i,
                {
                    r.push(v[i].dup());
                    i = i + 1;
                }
                proof {
                    assert(r@.map_values(|n: PackageName| n@) =~= v@.map_values(
                        |n: PackageName| n@,
                    ));
                }
                PackageFilter::Packages(r)
            },
        }
    }
}

/// What reading one source must yield.
pub open spec fn source_outcome(
    source: &RequirementsSource,
    r: &Result<RequirementsSpecification, AggregateError>,
) -> bool {
    match source {
        RequirementsSource::Package(e) => r matches Ok(s) && {
            &&& s.requirements@.len() == 1
            &&& entry_view(&s.requirements@[0]) == entry_view(e)
            &&& s.project is None
            &&& s.constraints@.len() == 0
            &&& s.overrides@.len() == 0
            &&& s.editables@.len() == 0
            &&& s.source_trees@.len() == 0
            &&& s.extras@.len() == 0
            &&& spec_no_index_config(s)
        },
        RequirementsSource::Editable(e) => r matches Ok(s) && {
            &&& s.editables@.len() == 1
            &&& editable_view(&s.editables@[0]) == editable_view(e)
            &&& s.project is None
            &&& s.requirements@.len() == 0
            &&& s.constraints@.len() == 0
            &&& s.overrides@.len() == 0
            &&& s.source_trees@.len() == 0
            &&& s.extras@.len() == 0
            &&& spec_no_index_config(s)
        },
        RequirementsSource::RequirementsTxt(c) => r matches Ok(s) && {
            &&& entries_equiv(s.requirements@, c.requirements@)
            &&& reqs_equiv(s.constraints@, c.constraints@)
            &&& eds_equiv(s.editables@, c.editables@)
            &&& opt_url_equiv(&s.index_url, &c.index_url)
            &&& urls_equiv(s.extra_index_urls@, c.extra_index_urls@)
            &&& s.no_index == c.no_index
            &&& flats_equiv(s.find_links@, c.find_links@)
            &&& filter_view(&s.no_binary) == filter_view(&c.no_binary)
            &&& filter_view(&s.no_build) == filter_view(&c.no_build)
            &&& s.project is None
            &&& s.overrides@.len() == 0
            &&& s.source_trees@.len() == 0
            &&& s.extras@.len() == 0
        },
        RequirementsSource::PyprojectToml(p) => match p.state {
            PyprojectState::Discovered(ref pw) => pyproject_outcome(pw, r),
            PyprojectState::Dynamic => r matches Ok(s) && {
                &&& s.project is None
                &&& s.source_trees@.len() == 1 && s.source_trees@[0]@ == p.path@
                &&& s.requirements@.len() == 0
                &&& s.constraints@.len() == 0
                &&& s.overrides@.len() == 0
                &&& s.editables@.len() == 0
                &&& s.extras@.len() == 0
                &&& spec_no_index_config(s)
            },
            PyprojectState::Failed(ref e) => r matches Err(err) && (err matches
                AggregateError::Discovery(e2) && discover_err_view(&e2) == discover_err_view(e)),
        },
        RequirementsSource::SetupPy(path) => r matches Ok(s) && {
            &&& s.source_trees@.len() == 1 && s.source_trees@[0]@ == path@
            &&& s.project is None
            &&& s.requirements@.len() == 0
            &&& s.constraints@.len() == 0
            &&& s.overrides@.len() == 0
            &&& s.editables@.len() == 0
            &&& s.extras@.len() == 0
            &&& spec_no_index_config(s)
        },
        RequirementsSource::SetupCfg(path) => r matches Ok(s) && {
            &&& s.source_trees@.len() == 1 && s.source_trees@[0]@ == path@
            &&& s.project is None
            &&& s.requirements@.len() == 0
            &&& s.constraints@.len() == 0
            &&& s.overrides@.len() == 0
            &&& s.editables@.len() == 0
            &&& s.extras@.len() == 0
            &&& spec_no_index_config(s)
        },
        RequirementsSource::SourceTree(path) => r matches Ok(s) && {
            &&& s.requirements@.len() == 1
            &&& entry_view(&s.requirements@[0]).1.len() == 0
            &&& (entry_view(&s.requirements@[0]).0 matches AnyReqView::Unnamed(uv) && uv.url.verbatim
                == path@ && uv.extras.len() == 0 && uv.marker is None && uv.origin is None)
            &&& s.project is None
            &&& s.constraints@.len() == 0
            &&& s.overrides@.len() == 0
            &&& s.editables@.len() == 0
            &&& s.source_trees@.len() == 0
            &&& s.extras@.len() == 0
            &&& spec_no_index_config(s)
        },
    }
}

/// Whether a source is internally consistent: a discovered workspace never
/// holds two members of one name.
pub open spec fn source_wf(source: &RequirementsSource) -> bool {
    match source {
        RequirementsSource::PyprojectToml(p) => match p.state {
            PyprojectState::Discovered(ref pw) => unique_names(
                pw.spec_workspace().spec_packages(),
            ),
            _ => true,
        },
        _ => true,
    }
}

impl RequirementsSpecification {
    /// Read the requirements and constraints one parsed source yields.
    pub fn from_source(source: &RequirementsSource) -> (r: Result<
        RequirementsSpecification,
        AggregateError,
    >)
        requires
            source_wf(source),
        ensures
            source_outcome(source, &r),
    {
        match source {
            RequirementsSource::Package(e) => {
                let mut s = RequirementsSpecification::new_empty();
                s.requirements.push(e.dup());
                Ok(s)
            },
            RequirementsSource::Editable(e) => {
                let mut s = RequirementsSpecification::new_empty();
                s.editables.push(e.dup());
                Ok(s)
            },
            RequirementsSource::RequirementsTxt(c) => {
                let mut s = RequirementsSpecification::new_empty();
                s.requirements = dup_entries(&c.requirements);
                s.constraints = dup_reqs(&c.constraints);
                s.editables = dup_editables(&c.editables);
                s.index_url = match &c.index_url {
                    Some(u) => {
                        let d = u.dup();
                        proof {
                            assert(url_view(&d) =~= url_view(u));
                        }
                        Some(d)
                    },
                    None => None,
                };
                s.extra_index_urls = dup_urls(&c.extra_index_urls);
                s.no_index = c.no_index;
                s.find_links = dup_flats(&c.find_links);
                s.no_binary = c.no_binary.dup();
                s.no_build = c.no_build.dup();
                Ok(s)
            },
            RequirementsSource::PyprojectToml(p) => {
                match &p.state {
                    PyprojectState::Discovered(pw) => Self::parse_direct_pyproject_toml(pw),
                    PyprojectState::Dynamic => {
                        let mut s = RequirementsSpecification::new_empty();
                        s.source_trees.push(p.path.clone());
                        Ok(s)
                    },
                    PyprojectState::Failed(e) => Err(
                        AggregateError::Discovery(dup_discover_error(e)),
                    ),
                }
            },
            RequirementsSource::SetupPy(path) => {
                let mut s = RequirementsSpecification::new_empty();
                s.source_trees.push(path.clone());
                Ok(s)
            },
            RequirementsSource::SetupCfg(path) => {
                let mut s = RequirementsSpecification::new_empty();
                s.source_trees.push(path.clone());
                Ok(s)
            },
            RequirementsSource::SourceTree(path) => {
                let mut s = RequirementsSpecification::new_empty();
                let entry = RequirementEntry {
                    requirement: UnresolvedRequirement::Unnamed(
                        crate::requirement::UnnamedRequirement {
                            url: Url {
                                scheme: {
                                    let mut t = String::new();
                                    t.append("file");
                                    t
                                },
                                userinfo: String::new(),
                                host: String::new(),
                                port: None,
                                segments: crate::strutil::split_str(path.as_str(), '/'),
                                fragment: None,
                                verbatim: path.clone(),
                            },
                            extras: Vec::new(),
                            marker: None,
                            origin: None,
                        },
                    ),
                    hashes: Vec::new(),
                };
                s.requirements.push(entry);
                Ok(s)
            },
        }
    }
}


/// The role a source was named under.
pub enum SourceRole {
    Requirements,
    Constraints,
    Overrides,
}

/// The values of an entry list.
pub open spec fn entry_views(v: Seq<RequirementEntry>) -> Seq<(AnyReqView, Seq<Seq<char>>)> {
    v.map_values(|e: RequirementEntry| entry_view(&e))
}

/// The values of a requirement list.
pub open spec fn req_views(v: Seq<Requirement>) -> Seq<ReqView> {
    v.map_values(|e: Requirement| req_view(&e))
}

/// The values of an editable list.
pub open spec fn ed_views(v: Seq<EditableRequirement>) -> Seq<EditableView> {
    v.map_values(|e: EditableRequirement| editable_view(&e))
}

/// The values of a locator list.
pub open spec fn url_views(v: Seq<Url>) -> Seq<UrlView> {
    v.map_values(|u: Url| url_view(&u))
}

/// The values of a flat-index list.
pub open spec fn flat_views(v: Seq<FlatIndexLocation>) -> Seq<(bool, UrlView, Seq<char>)> {
    v.map_values(|f: FlatIndexLocation| flat_index_view(&f))
}

/// The named requirements of an entry list, where all entries are named.
pub open spec fn named_seq(es: Seq<RequirementEntry>) -> Seq<Requirement> {
    es.map_values(
        |e: RequirementEntry|
            match e.requirement {
                UnresolvedRequirement::Named(q) => q,
                UnresolvedRequirement::Unnamed(_) => arbitrary(),
            },
    )
}

/// Whether the two index declarations can stand together: they agree once
/// canonicalized, or one is absent.
pub open spec fn index_compat(a: &Option<Url>, b: &Option<Url>) -> bool {
    match (a, b) {
        (Some(e), Some(u)) => canonical_text(e, true) == canonical_text(u, true),
        _ => true,
    }
}

/// The parts of absorbing a source that do not depend on its role.
pub open spec fn absorb_common_ok(
    acc: &RequirementsSpecification,
    src: &RequirementsSpecification,
    n: &RequirementsSpecification,
) -> bool {
    &&& n.no_index == (acc.no_index || src.no_index)
    &&& n.extra_index_urls@ == acc.extra_index_urls@ + src.extra_index_urls@
    &&& n.find_links@ == acc.find_links@ + src.find_links@
    &&& filter_view(&n.no_binary) == filter_combine(
        filter_view(&acc.no_binary),
        filter_view(&src.no_binary),
    )
    &&& filter_view(&n.no_build) == filter_combine(
        filter_view(&acc.no_build),
        filter_view(&src.no_build),
    )
    &&& index_compat(&acc.index_url, &src.index_url)
    &&& match src.index_url {
        Some(u) => n.index_url == Some(u),
        None => n.index_url == acc.index_url,
    }
}

/// Whether a text is already listed.
fn text_listed(v: &Vec<String>, x: &String) -> (r: bool)
    ensures
        r == text_views(v@).contains(x@),
{
    let mut i: usize = 0;
    while i < v.len()
        invariant
            i <= v@.len(),
            forall|j: int| 0 <= j < i ==> #[trigger] v@[j]@ != x@,
        decreases v@.len() - i,
    {
        if crate::strutil::str_eq(v[i].as_str(), x.as_str()) {
            proof {
                assert(text_views(v@)[i as int] == x@);
            }
            return true;
        }
        i = i + 1;
    }
    proof {
        if text_views(v@).contains(x@) {
            let j = choose|j: int| 0 <= j < text_views(v@).len() && text_views(v@)[j] == x@;
            assert(v@[j]@ == x@);
            assert(false);
        }
    }
    false
}

/// Append the texts of `b` that `a` does not already hold.
fn extend_texts_dedup(a: Vec<String>, b: &Vec<String>) -> (r: Vec<String>)
    ensures
        text_views(r@) == dedup_concat(text_views(a@), text_views(b@)),
{
    let ghost av = text_views(a@);
    let ghost bv = text_views(b@);
    let mut r = a;
    let mut i: usize = 0;
    proof {
        assert(bv.subrange(0, 0) =~= Seq::<Seq<char>>::empty());
        assert(dedup_concat(av, bv.subrange(0, 0)) == av);
    }
    while i < b.len()
        invariant
            i <= b@.len(),
            bv == text_views(b@),
            text_views(r@) == dedup_concat(av, bv.subrange(0, i as int)),
        decreases b@.len() - i,
    {
        proof {
            assert(bv.subrange(0, i + 1).drop_last() =~= bv.subrange(0, i as int));
            assert(bv.subrange(0, i + 1).last() == b@[i as int]@);
        }
        if !text_listed(&r, &b[i]) {
            r.push(b[i].clone());
            proof {
                assert(text_views(r@) =~= dedup_concat(av, bv.subrange(0, i as int)).push(
                    b@[i as int]@,
                ));
            }
        }
        i = i + 1;
    }
    proof {
        assert(bv.subrange(0, b@.len() as int) =~= bv);
    }
    r
}

impl RequirementsSpecification {
    /// Fold one source's reading into the accumulated specification, under
    /// the role the source was named for. Requirements concatenate;
    /// constraints gathered from a requirement source stay constraints;
    /// an override source feeds only the overrides; the index location is
    /// first-wins and a differing later one is fatal; `no_index` is an or;
    /// the filters combine by set union.
    pub fn absorb(acc: RequirementsSpecification, src: RequirementsSpecification, role: SourceRole)
        -> (r: Result<RequirementsSpecification, AggregateError>)
        ensures
            match r {
                Ok(n) => absorb_common_ok(&acc, &src, &n) && match role {
                    SourceRole::Requirements => {
                        &&& match acc.project {
                            Some(_) => n.project == acc.project,
                            None => n.project == src.project,
                        }
                        &&& n.requirements@ == acc.requirements@ + src.requirements@
                        &&& n.constraints@ == acc.constraints@ + src.constraints@
                        &&& n.overrides@ == acc.overrides@ + src.overrides@
                        &&& n.editables@ == acc.editables@ + src.editables@
                        &&& n.source_trees@ == acc.source_trees@ + src.source_trees@
                        &&& text_views(n.extras@) == dedup_concat(
                            text_views(acc.extras@),
                            text_views(src.extras@),
                        )
                    },
                    SourceRole::Constraints => {
                        &&& (forall|k: int| 0 <= k < src.requirements@.len() ==> (
                        #[trigger] src.requirements@[k]).requirement is Named)
                        &&& n.constraints@ == acc.constraints@ + named_seq(src.requirements@)
                            + src.constraints@
                        &&& n.project == acc.project
                        &&& n.requirements@ == acc.requirements@
                        &&& n.overrides@ == acc.overrides@
                        &&& n.editables@ == acc.editables@
                        &&& n.source_trees@ == acc.source_trees@
                        &&& n.extras@ == acc.extras@
                    },
                    SourceRole::Overrides => {
                        &&& n.overrides@ == acc.overrides@ + src.requirements@ + src.overrides@
                        &&& n.project == acc.project
                        &&& n.requirements@ == acc.requirements@
                        &&& n.constraints@ == acc.constraints@
                        &&& n.editables@ == acc.editables@
                        &&& n.source_trees@ == acc.source_trees@
                        &&& n.extras@ == acc.extras@
                    },
                },
                Err(e) => match e {
                    AggregateError::UnnamedConstraint { url } => role is Constraints && exists|
                        k: int,
                    |
                        0 <= k < src.requirements@.len() && (
                        #[trigger] src.requirements@[k]).requirement is Unnamed,
                    AggregateError::MultipleIndexUrls { existing, given } => !index_compat(
                        &acc.index_url,
                        &src.index_url,
                    ) && (acc.index_url matches Some(e2) && existing@ == e2.verbatim@) && (
                    src.index_url matches Some(u2) && given@ == u2.verbatim@),
                    _ => false,
                },
            },
    {
        // A constraint source may not hand over unnamed requirements.
        match role {
            SourceRole::Constraints => {
                let mut k: usize = 0;
                while k < src.requirements.len()
                    invariant
                        role is Constraints,
                        k <= src.requirements@.len(),
                        forall|j: int| 0 <= j < k ==> (
                        #[trigger] src.requirements@[j]).requirement is Named,
                    decreases src.requirements@.len() - k,
                {
                    match &src.requirements[k].requirement {
                        UnresolvedRequirement::Unnamed(u) => {
                            proof {
                                assert((src.requirements@[k as int]).requirement is Unnamed);
                            }
                            return Err(
                                AggregateError::UnnamedConstraint {
                                    url: u.url.verbatim.clone(),
                                },
                            );
                        },
                        UnresolvedRequirement::Named(_) => {},
                    }
                    k = k + 1;
                }
            },
            _ => {},
        }
        // A later source declaring a different index location is fatal.
        match (&acc.index_url, &src.index_url) {
            (Some(e), Some(u)) => {
                let ka = e.distribution_key();
                let kb = u.distribution_key();
                if !crate::strutil::str_eq(ka.as_str(), kb.as_str()) {
                    return Err(
                        AggregateError::MultipleIndexUrls {
                            existing: e.verbatim.clone(),
                            given: u.verbatim.clone(),
                        },
                    );
                }
            },
            _ => {},
        }
        let RequirementsSpecification {
            project: a_project,
            requirements: mut a_requirements,
            constraints: mut a_constraints,
            overrides: mut a_overrides,
            editables: mut a_editables,
            source_trees: mut a_source_trees,
            extras: a_extras,
            index_url: a_index_url,
            extra_index_urls: mut a_extra_index_urls,
            no_index: a_no_index,
            find_links: mut a_find_links,
            no_binary: a_no_binary,
            no_build: a_no_build,
        } = acc;
        let RequirementsSpecification {
            project: s_project,
            requirements: mut s_requirements,
            constraints: mut s_constraints,
            overrides: mut s_overrides,
            editables: mut s_editables,
            source_trees: mut s_source_trees,
            extras: s_extras,
            index_url: s_index_url,
            extra_index_urls: mut s_extra_index_urls,
            no_index: s_no_index,
            find_links: mut s_find_links,
            no_binary: s_no_binary,
            no_build: s_no_build,
        } = src;
        let mut project = a_project;
        let mut extras = a_extras;
        match role {
            SourceRole::Requirements => {
                a_requirements.append(&mut s_requirements);
                a_constraints.append(&mut s_constraints);
                a_overrides.append(&mut s_overrides);
                a_editables.append(&mut s_editables);
                a_source_trees.append(&mut s_source_trees);
                extras = extend_texts_dedup(extras, &s_extras);
                let have_project = match &project {
                    Some(_) => true,
                    None => false,
                };
                if !have_project {
                    project = s_project;
                }
            },
            SourceRole::Constraints => {
                let ghost orig = s_requirements@;
                let mut j: usize = 0;
                while s_requirements.len() > 0
                    invariant
                        j <= orig.len(),
                        j + s_requirements@.len() == orig.len(),
                        orig.len() <= usize::MAX,
                        s_requirements@ == orig.subrange(j as int, orig.len() as int),
                        forall|k: int| 0 <= k < orig.len() ==> (
                        #[trigger] orig[k]).requirement is Named,
                        a_constraints@ == acc.constraints@ + named_seq(
                            orig.subrange(0, j as int),
                        ),
                    decreases s_requirements@.len(),
                {
                    let e = s_requirements.remove(0);
                    proof {
                        assert(e == orig[j as int]);
                        assert(s_requirements@ =~= orig.subrange(j + 1, orig.len() as int));
                    }
                    match e.requirement {
                        UnresolvedRequirement::Named(q) => {
                            a_constraints.push(q);
                            proof {
                                assert(named_seq(orig.subrange(0, j + 1)).drop_last()
                                    =~= named_seq(orig.subrange(0, j as int)));
                                assert(orig.subrange(0, j + 1).last() == orig[j as int]);
                                assert(a_constraints@ =~= acc.constraints@ + named_seq(
                                    orig.subrange(0, j + 1),
                                ));
                            }
                        },
                        UnresolvedRequirement::Unnamed(_) => {
                            proof {
                                assert(false);
                            }
                        },
                    }
                    j = j + 1;
                }
                proof {
                    assert(orig.subrange(0, orig.len() as int) =~= orig);
                }
                a_constraints.append(&mut s_constraints);
            },
            SourceRole::Overrides => {
                a_overrides.append(&mut s_requirements);
                a_overrides.append(&mut s_overrides);
            },
        }
        a_extra_index_urls.append(&mut s_extra_index_urls);
        a_find_links.append(&mut s_find_links);
        let index_url = match s_index_url {
            Some(u) => Some(u),
            None => a_index_url,
        };
        Ok(
            RequirementsSpecification {
                project,
                requirements: a_requirements,
                constraints: a_constraints,
                overrides: a_overrides,
                editables: a_editables,
                source_trees: a_source_trees,
                extras,
                index_url,
                extra_index_urls: a_extra_index_urls,
                no_index: a_no_index || s_no_index,
                find_links: a_find_links,
                no_binary: a_no_binary.combine(s_no_binary),
                no_build: a_no_build.combine(s_no_build),
            },
        )
    }
}


/// The canonical index key a source declares, if any.
pub open spec fn source_index_canon(s: &RequirementsSource) -> Option<Seq<char>> {
    match s {
        RequirementsSource::RequirementsTxt(c) => match c.index_url {
            Some(ref u) => Some(canonical_text(u, true)),
            None => None,
        },
        _ => None,
    }
}

/// Whether a source turns index usage off.
pub open spec fn source_no_index_flag(s: &RequirementsSource) -> bool {
    match s {
        RequirementsSource::RequirementsTxt(c) => c.no_index,
        _ => false,
    }
}

/// Whether a source holds or yields an unnamed requirement. A source tree
/// always does: its name is discovered only later.
pub open spec fn source_has_unnamed(s: &RequirementsSource) -> bool {
    match s {
        RequirementsSource::Package(e) => e.requirement is Unnamed,
        RequirementsSource::RequirementsTxt(c) => exists|k: int|
            0 <= k < c.requirements@.len() && (#[trigger] c.requirements@[k]).requirement
                is Unnamed,
        RequirementsSource::SourceTree(_) => true,
        _ => false,
    }
}

/// Whether discovery failed for a source.
pub open spec fn source_failed(s: &RequirementsSource) -> bool {
    match s {
        RequirementsSource::PyprojectToml(p) => p.state is Failed,
        _ => false,
    }
}

/// All sources, in the order they are read.
pub open spec fn agg_sources(
    a: Seq<RequirementsSource>,
    b: Seq<RequirementsSource>,
    c: Seq<RequirementsSource>,
) -> Seq<RequirementsSource> {
    a + b + c
}

/// Whether every two declared index locations agree once canonicalized.
pub open spec fn sources_index_compat(all: Seq<RequirementsSource>) -> bool {
    forall|i: int, j: int|
        0 <= i < all.len() && 0 <= j < all.len() && source_index_canon(#[trigger] &all[i]) is Some
            && source_index_canon(#[trigger] &all[j]) is Some ==> source_index_canon(&all[i])
            == source_index_canon(&all[j])
}

/// Locators with equal parts canonicalize equally.
proof fn lemma_canonical_congruent(a: &Url, b: &Url)
    requires
        url_view(a) == url_view(b),
    ensures
        canonical_text(a, true) == canonical_text(b, true),
        canonical_text(a, false) == canonical_text(b, false),
{
    assert(a.scheme@ == b.scheme@);
    assert(a.userinfo@ == b.userinfo@);
    assert(a.host@ == b.host@);
    assert(a.port == b.port);
    assert(crate::url::seg_views(a.segments@) == crate::url::seg_views(b.segments@));
    match (a.fragment, b.fragment) {
        (Some(f), Some(g)) => {
            assert(f@ == g@);
        },
        (None, None) => {},
        _ => {
            assert(false);
        },
    }
}

/// How far the running specification reflects the sources read so far.
pub open spec fn agg_inv(
    s: &RequirementsSpecification,
    done: Seq<RequirementsSource>,
) -> bool {
    &&& match s.index_url {
        None => forall|i: int| 0 <= i < done.len() ==> source_index_canon(#[trigger] &done[i])
            is None,
        Some(u) => (exists|i: int|
            0 <= i < done.len() && source_index_canon(#[trigger] &done[i]) == Some(
                canonical_text(&u, true),
            )) && (forall|i: int|
            0 <= i < done.len() ==> (source_index_canon(#[trigger] &done[i]) matches Some(c)
                ==> c == canonical_text(&u, true))),
    }
    &&& s.no_index == exists|i: int|
        0 <= i < done.len() && source_no_index_flag(#[trigger] &done[i])
}

/// One aggregation step: absorbing a source's reading keeps the invariant.
proof fn lemma_agg_step(
    acc: &RequirementsSpecification,
    ss: &RequirementsSpecification,
    n: &RequirementsSpecification,
    source: &RequirementsSource,
    done: Seq<RequirementsSource>,
)
    requires
        agg_inv(acc, done),
        source_outcome(source, &Ok(*ss)),
        absorb_common_ok(acc, ss, n),
    ensures
        agg_inv(n, done.push(*source)),
{
    let done2 = done.push(*source);
    assert(forall|i: int| 0 <= i < done.len() ==> done2[i] == done[i]);
    assert(done2[done.len() as int] == *source);
    match ss.index_url {
        None => {
            assert(source_index_canon(source) is None) by {
                match source {
                    RequirementsSource::RequirementsTxt(c) => {
                        assert(opt_url_equiv(&ss.index_url, &c.index_url));
                    },
                    _ => {},
                }
            }
            assert(n.index_url == acc.index_url);
            assert(ss.no_index == source_no_index_flag(source));
        },
        Some(u) => {
            assert(source_index_canon(source) == Some(canonical_text(&u, true))) by {
                match source {
                    RequirementsSource::RequirementsTxt(c) => {
                        assert(opt_url_equiv(&ss.index_url, &c.index_url));
                        match c.index_url {
                            Some(ref cu) => {
                                lemma_canonical_congruent(&u, cu);
                            },
                            None => {
                                assert(false);
                            },
                        }
                    },
                    _ => {
                        assert(spec_no_index_config(ss));
                        assert(false);
                    },
                }
            }
            assert(n.index_url == Some(u));
            assert(ss.no_index == source_no_index_flag(source));
            match acc.index_url {
                Some(e) => {
                    assert(canonical_text(&e, true) == canonical_text(&u, true));
                },
                None => {},
            }
        },
    }
    assert(n.no_index == (acc.no_index || ss.no_index));
    assert(ss.no_index == source_no_index_flag(source)) by {
        match source {
            RequirementsSource::RequirementsTxt(c) => {},
            _ => {
                assert(spec_no_index_config(ss));
            },
        }
    }
    if n.no_index {
        if acc.no_index {
            let w = choose|i: int|
                0 <= i < done.len() && source_no_index_flag(#[trigger] &done[i]);
            assert(source_no_index_flag(&done2[w]));
        } else {
            assert(source_no_index_flag(&done2[done.len() as int]));
        }
    }
}


/// The requirements of a list of source readings, in order.
pub open spec fn cat_requirements(reads: Seq<RequirementsSpecification>) -> Seq<RequirementEntry>
    decreases reads.len(),
{
    if reads.len() == 0 {
        Seq::empty()
    } else {
        cat_requirements(reads.drop_last()) + reads.last().requirements@
    }
}

/// The constraints of a list of source readings, in order.
pub open spec fn cat_constraints(reads: Seq<RequirementsSpecification>) -> Seq<Requirement>
    decreases reads.len(),
{
    if reads.len() == 0 {
        Seq::empty()
    } else {
        cat_constraints(reads.drop_last()) + reads.last().constraints@
    }
}

/// The overrides of a list of source readings, in order.
pub open spec fn cat_overrides(reads: Seq<RequirementsSpecification>) -> Seq<RequirementEntry>
    decreases reads.len(),
{
    if reads.len() == 0 {
        Seq::empty()
    } else {
        cat_overrides(reads.drop_last()) + reads.last().overrides@
    }
}

/// The editables of a list of source readings, in order.
pub open spec fn cat_editables(reads: Seq<RequirementsSpecification>) -> Seq<EditableRequirement>
    decreases reads.len(),
{
    if reads.len() == 0 {
        Seq::empty()
    } else {
        cat_editables(reads.drop_last()) + reads.last().editables@
    }
}

/// The source trees of a list of source readings, in order.
pub open spec fn cat_source_trees(reads: Seq<RequirementsSpecification>) -> Seq<String>
    decreases reads.len(),
{
    if reads.len() == 0 {
        Seq::empty()
    } else {
        cat_source_trees(reads.drop_last()) + reads.last().source_trees@
    }
}

/// The extra index locations of a list of source readings, in order.
pub open spec fn cat_extra_urls(reads: Seq<RequirementsSpecification>) -> Seq<Url>
    decreases reads.len(),
{
    if reads.len() == 0 {
        Seq::empty()
    } else {
        cat_extra_urls(reads.drop_last()) + reads.last().extra_index_urls@
    }
}

/// The flat-index sources of a list of source readings, in order.
pub open spec fn cat_find_links(reads: Seq<RequirementsSpecification>) -> Seq<FlatIndexLocation>
    decreases reads.len(),
{
    if reads.len() == 0 {
        Seq::empty()
    } else {
        cat_find_links(reads.drop_last()) + reads.last().find_links@
    }
}

/// The accepted extras of a list of source readings: each reading's extras
/// folded in, duplicates dropped.
pub open spec fn extras_fold(reads: Seq<RequirementsSpecification>) -> Seq<Seq<char>>
    decreases reads.len(),
{
    if reads.len() == 0 {
        Seq::empty()
    } else {
        dedup_concat(extras_fold(reads.drop_last()), text_views(reads.last().extras@))
    }
}

/// What constraint sources contribute: each reading's requirements taken
/// as constraints, then its nested constraints.
pub open spec fn constraint_extraction(reads: Seq<RequirementsSpecification>) -> Seq<Requirement>
    decreases reads.len(),
{
    if reads.len() == 0 {
        Seq::empty()
    } else {
        constraint_extraction(reads.drop_last()) + named_seq(reads.last().requirements@)
            + reads.last().constraints@
    }
}

/// What override sources contribute: each reading's requirements and its
/// overrides.
pub open spec fn override_extraction(reads: Seq<RequirementsSpecification>) -> Seq<
    RequirementEntry,
>
    decreases reads.len(),
{
    if reads.len() == 0 {
        Seq::empty()
    } else {
        override_extraction(reads.drop_last()) + reads.last().requirements@
            + reads.last().overrides@
    }
}

/// The first project name a list of source readings declares.
pub open spec fn first_project(reads: Seq<RequirementsSpecification>) -> Option<PackageName>
    decreases reads.len(),
{
    if reads.len() == 0 {
        None
    } else {
        match first_project(reads.drop_last()) {
            Some(p) => Some(p),
            None => reads.last().project,
        }
    }
}

/// The prebuilt-artifact filters of a list of source readings.
pub open spec fn nb_views(reads: Seq<RequirementsSpecification>) -> Seq<(int, Seq<Seq<char>>)> {
    reads.map_values(|x: RequirementsSpecification| filter_view(&x.no_binary))
}

/// The source-build filters of a list of source readings.
pub open spec fn nu_views(reads: Seq<RequirementsSpecification>) -> Seq<(int, Seq<Seq<char>>)> {
    reads.map_values(|x: RequirementsSpecification| filter_view(&x.no_build))
}

/// A list of filters folded together, "all" absorbing, named sets joined.
pub open spec fn filter_fold(init: (int, Seq<Seq<char>>), fs: Seq<(int, Seq<Seq<char>>)>) -> (
    int,
    Seq<Seq<char>>,
)
    decreases fs.len(),
{
    if fs.len() == 0 {
        init
    } else {
        filter_combine(filter_fold(init, fs.drop_last()), fs.last())
    }
}

/// How one more reading extends every fold.
proof fn lemma_reads_push(reads: Seq<RequirementsSpecification>, x: RequirementsSpecification)
    ensures
        cat_requirements(reads.push(x)) == cat_requirements(reads) + x.requirements@,
        cat_constraints(reads.push(x)) == cat_constraints(reads) + x.constraints@,
        cat_overrides(reads.push(x)) == cat_overrides(reads) + x.overrides@,
        cat_editables(reads.push(x)) == cat_editables(reads) + x.editables@,
        cat_source_trees(reads.push(x)) == cat_source_trees(reads) + x.source_trees@,
        cat_extra_urls(reads.push(x)) == cat_extra_urls(reads) + x.extra_index_urls@,
        cat_find_links(reads.push(x)) == cat_find_links(reads) + x.find_links@,
        extras_fold(reads.push(x)) == dedup_concat(extras_fold(reads), text_views(x.extras@)),
        constraint_extraction(reads.push(x)) == constraint_extraction(reads) + named_seq(
            x.requirements@,
        ) + x.constraints@,
        override_extraction(reads.push(x)) == override_extraction(reads) + x.requirements@
            + x.overrides@,
        first_project(reads.push(x)) == (match first_project(reads) {
            Some(p) => Some(p),
            None => x.project,
        }),
        nb_views(reads.push(x)) == nb_views(reads).push(filter_view(&x.no_binary)),
        nu_views(reads.push(x)) == nu_views(reads).push(filter_view(&x.no_build)),
{
    assert(reads.push(x).drop_last() =~= reads);
    assert(reads.push(x).last() == x);
    assert(nb_views(reads.push(x)) =~= nb_views(reads).push(filter_view(&x.no_binary)));
    assert(nu_views(reads.push(x)) =~= nu_views(reads).push(filter_view(&x.no_build)));
}

/// A reading with only named requirements comes from a source with only
/// named requirements.
proof fn lemma_all_named(ss: &RequirementsSpecification, source: &RequirementsSource)
    requires
        source_outcome(source, &Ok(*ss)),
        forall|k: int| 0 <= k < ss.requirements@.len() ==> (
        #[trigger] ss.requirements@[k]).requirement is Named,
    ensures
        !source_has_unnamed(source),
{
    match source {
        RequirementsSource::Package(e) => {
            assert(entry_view(&ss.requirements@[0]) == entry_view(e));
            assert((ss.requirements@[0]).requirement is Named);
            assert(entry_view(e).0 is Named);
        },
        RequirementsSource::RequirementsTxt(c) => {
            assert forall|k: int| 0 <= k < c.requirements@.len() implies !((
            #[trigger] c.requirements@[k]).requirement is Unnamed) by {
                assert(entry_view(&ss.requirements@[k]) == entry_view(&c.requirements@[k]));
                assert((ss.requirements@[k]).requirement is Named);
            }
        },
        RequirementsSource::SourceTree(_) => {
            assert(entry_view(&ss.requirements@[0]).0 is Unnamed);
            assert((ss.requirements@[0]).requirement is Named);
            assert(false);
        },
        _ => {},
    }
}

/// Whether three lists of readings are each what reading the corresponding
/// sources yields.
pub open spec fn agg_reads_ok(
    reqs: Seq<RequirementsSource>,
    cons: Seq<RequirementsSource>,
    overs: Seq<RequirementsSource>,
    rr: Seq<RequirementsSpecification>,
    rc: Seq<RequirementsSpecification>,
    ro: Seq<RequirementsSpecification>,
) -> bool {
    &&& rr.len() == reqs.len() && forall|i: int| 0 <= i < reqs.len() ==> source_outcome(
        #[trigger] &reqs[i],
        &Ok(rr[i]),
    )
    &&& rc.len() == cons.len() && forall|i: int| 0 <= i < cons.len() ==> source_outcome(
        #[trigger] &cons[i],
        &Ok(rc[i]),
    )
    &&& ro.len() == overs.len() && forall|i: int| 0 <= i < overs.len() ==> source_outcome(
        #[trigger] &overs[i],
        &Ok(ro[i]),
    )
}

/// How the aggregated specification is composed from the three lists of
/// readings: requirement sources feed everything in order, with the first
/// declared project winning; constraint sources feed only the constraints;
/// override sources feed only the overrides; the extras fold without
/// duplicates; extra index locations and flat indexes concatenate; the
/// filters join by set union.
pub open spec fn agg_result_ok(
    s: &RequirementsSpecification,
    rr: Seq<RequirementsSpecification>,
    rc: Seq<RequirementsSpecification>,
    ro: Seq<RequirementsSpecification>,
) -> bool {
    &&& s.requirements@ == cat_requirements(rr)
    &&& s.editables@ == cat_editables(rr)
    &&& s.source_trees@ == cat_source_trees(rr)
    &&& s.project == first_project(rr)
    &&& s.constraints@ == cat_constraints(rr) + constraint_extraction(rc)
    &&& s.overrides@ == cat_overrides(rr) + override_extraction(ro)
    &&& text_views(s.extras@) == extras_fold(rr)
    &&& s.extra_index_urls@ == cat_extra_urls(rr) + cat_extra_urls(rc) + cat_extra_urls(ro)
    &&& s.find_links@ == cat_find_links(rr) + cat_find_links(rc) + cat_find_links(ro)
    &&& filter_view(&s.no_binary) == filter_fold(
        (0int, Seq::<Seq<char>>::empty()),
        nb_views(rr) + nb_views(rc) + nb_views(ro),
    )
    &&& filter_view(&s.no_build) == filter_fold(
        (0int, Seq::<Seq<char>>::empty()),
        nu_views(rr) + nu_views(rc) + nu_views(ro),
    )
}

/// What aggregating three lists of sources must yield.
pub open spec fn from_sources_outcome(
    reqs: Seq<RequirementsSource>,
    cons: Seq<RequirementsSource>,
    overs: Seq<RequirementsSource>,
    r: &Result<RequirementsSpecification, AggregateError>,
) -> bool {
    match r {
        Ok(s) => {
            &&& sources_index_compat(agg_sources(reqs, cons, overs))
            &&& s.no_index == exists|i: int|
                0 <= i < agg_sources(reqs, cons, overs).len() && source_no_index_flag(
                    #[trigger] &agg_sources(reqs, cons, overs)[i],
                )
            &&& (s.index_url matches Some(u) ==> exists|i: int|
                0 <= i < agg_sources(reqs, cons, overs).len() && source_index_canon(
                    #[trigger] &agg_sources(reqs, cons, overs)[i],
                ) == Some(canonical_text(&u, true)))
            &&& (s.index_url is None ==> forall|i: int|
                0 <= i < agg_sources(reqs, cons, overs).len() ==> source_index_canon(
                    #[trigger] &agg_sources(reqs, cons, overs)[i],
                ) is None)
            &&& (forall|i: int| 0 <= i < cons.len() ==> !source_has_unnamed(#[trigger] &cons[i]))
            &&& exists|rds: (
                Seq<RequirementsSpecification>,
                Seq<RequirementsSpecification>,
                Seq<RequirementsSpecification>,
            )|
                #[trigger] agg_reads_ok(reqs, cons, overs, rds.0, rds.1, rds.2) && agg_result_ok(
                    s,
                    rds.0,
                    rds.1,
                    rds.2,
                )
        },
        Err(e) => match e {
            AggregateError::MultipleIndexUrls { .. } => !sources_index_compat(
                agg_sources(reqs, cons, overs),
            ),
            AggregateError::UnnamedConstraint { .. } => exists|i: int|
                0 <= i < cons.len() && source_has_unnamed(#[trigger] &cons[i]),
            AggregateError::Discovery(_) => exists|i: int|
                0 <= i < agg_sources(reqs, cons, overs).len() && source_failed(
                    #[trigger] &agg_sources(reqs, cons, overs)[i],
                ),
        },
    }
}

impl RequirementsSpecification {
    /// Read the combined requirements and constraints from a set of
    /// sources. A requirement source feeds requirements and whatever
    /// nested constraints it declares; a constraint source feeds only
    /// constraints, and unnamed entries there are fatal; an override
    /// source feeds only overrides. Index declarations must agree once
    /// canonicalized — the first one wins and a differing later one is
    /// fatal — and `no_index` holds when any source turned the index off.
    pub fn from_sources(
        requirements: &Vec<RequirementsSource>,
        constraints: &Vec<RequirementsSource>,
        overrides: &Vec<RequirementsSource>,
    ) -> (r: Result<RequirementsSpecification, AggregateError>)
        requires
            forall|i: int| 0 <= i < requirements@.len() ==> source_wf(
                #[trigger] &requirements@[i],
            ),
            forall|i: int| 0 <= i < constraints@.len() ==> source_wf(#[trigger] &constraints@[i]),
            forall|i: int| 0 <= i < overrides@.len() ==> source_wf(#[trigger] &overrides@[i]),
        ensures
            from_sources_outcome(requirements@, constraints@, overrides@, &r),
    {
        let ghost all = agg_sources(requirements@, constraints@, overrides@);
        let mut spec = RequirementsSpecification::new_empty();
        let ghost done = Seq::<RequirementsSource>::empty();
        let ghost mut rr = Seq::<RequirementsSpecification>::empty();
        let ghost mut rc = Seq::<RequirementsSpecification>::empty();
        let ghost mut ro = Seq::<RequirementsSpecification>::empty();
        proof {
            assert(agg_inv(&spec, done));
            assert(spec.requirements@ =~= cat_requirements(rr));
            assert(spec.editables@ =~= cat_editables(rr));
            assert(spec.source_trees@ =~= cat_source_trees(rr));
            assert(spec.constraints@ =~= cat_constraints(rr));
            assert(spec.overrides@ =~= cat_overrides(rr));
            assert(text_views(spec.extras@) =~= extras_fold(rr));
            assert(spec.extra_index_urls@ =~= cat_extra_urls(rr));
            assert(spec.find_links@ =~= cat_find_links(rr));
            assert(nb_views(rr) =~= Seq::<(int, Seq<Seq<char>>)>::empty());
            assert(nu_views(rr) =~= Seq::<(int, Seq<Seq<char>>)>::empty());
        }
        let mut i: usize = 0;
        while i < requirements.len()
            invariant
                i <= requirements@.len(),
                all == agg_sources(requirements@, constraints@, overrides@),
                forall|k: int| 0 <= k < requirements@.len() ==> source_wf(
                    #[trigger] &requirements@[k],
                ),
                done =~= requirements@.subrange(0, i as int),
                agg_inv(&spec, done),
                rr.len() == i,
                forall|q: int| 0 <= q < i ==> source_outcome(
                    #[trigger] &requirements@[q],
                    &Ok(rr[q]),
                ),
                spec.requirements@ == cat_requirements(rr),
                spec.editables@ == cat_editables(rr),
                spec.source_trees@ == cat_source_trees(rr),
                spec.project == first_project(rr),
                spec.constraints@ == cat_constraints(rr),
                spec.overrides@ == cat_overrides(rr),
                text_views(spec.extras@) == extras_fold(rr),
                spec.extra_index_urls@ == cat_extra_urls(rr),
                spec.find_links@ == cat_find_links(rr),
                filter_view(&spec.no_binary) == filter_fold(
                    (0int, Seq::<Seq<char>>::empty()),
                    nb_views(rr),
                ),
                filter_view(&spec.no_build) == filter_fold(
                    (0int, Seq::<Seq<char>>::empty()),
                    nu_views(rr),
                ),
            decreases requirements@.len() - i,
        {
            let source = &requirements[i];
            let ss = match Self::from_source(source) {
                Ok(ss) => ss,
                Err(e) => {
                    proof {
                        if e is Discovery {
                            assert(source_failed(&requirements@[i as int]));
                            assert(all[i as int] == requirements@[i as int]);
                        } else {
                            assert(source_outcome(&requirements@[i as int], &Err(e)));
                            assert(false);
                        }
                    }
                    return Err(e);
                },
            };
            let ghost ss0 = ss;
            let acc0 = spec;
            let ghost accg = acc0;
            spec = match Self::absorb(acc0, ss, SourceRole::Requirements) {
                Ok(n) => {
                    proof {
                        lemma_agg_step(&accg, &ss0, &n, &requirements@[i as int], done);
                        lemma_reads_push(rr, ss0);
                        let rr0 = rr;
                        rr = rr.push(ss0);
                        assert(nb_views(rr).drop_last() =~= nb_views(rr0));
                        assert(nb_views(rr).last() == filter_view(&ss0.no_binary));
                        assert(filter_fold(
                            (0int, Seq::<Seq<char>>::empty()),
                            nb_views(rr),
                        ) == filter_combine(
                            filter_fold((0int, Seq::<Seq<char>>::empty()), nb_views(rr0)),
                            filter_view(&ss0.no_binary),
                        ));
                        assert(nu_views(rr).drop_last() =~= nu_views(rr0));
                        assert(nu_views(rr).last() == filter_view(&ss0.no_build));
                        assert(filter_fold(
                            (0int, Seq::<Seq<char>>::empty()),
                            nu_views(rr),
                        ) == filter_combine(
                            filter_fold((0int, Seq::<Seq<char>>::empty()), nu_views(rr0)),
                            filter_view(&ss0.no_build),
                        ));
                    }
                    n
                },
                Err(e) => {
                    proof {
                        match e {
                            AggregateError::MultipleIndexUrls { .. } => {
                                assert(done =~= all.subrange(0, done.len() as int));
                                assert(all[done.len() as int] == requirements@[i as int]);
                                lemma_conflict(&accg, &ss0, &requirements@[i as int], done, all);
                            },
                            AggregateError::UnnamedConstraint { .. } => {
                                assert(false);
                            },
                            AggregateError::Discovery(_) => {
                                assert(false);
                            },
                        }
                    }
                    return Err(e);
                },
            };
            proof {
                done = done.push(requirements@[i as int]);
                assert(done =~= requirements@.subrange(0, i + 1));
            }
            i = i + 1;
        }
        proof {
            assert(spec.constraints@ =~= cat_constraints(rr) + constraint_extraction(rc));
            assert(spec.extra_index_urls@ =~= cat_extra_urls(rr) + cat_extra_urls(rc));
            assert(spec.find_links@ =~= cat_find_links(rr) + cat_find_links(rc));
            assert(nb_views(rr) + nb_views(rc) =~= nb_views(rr));
            assert(nu_views(rr) + nu_views(rc) =~= nu_views(rr));
        }
        let mut i: usize = 0;
        while i < constraints.len()
            invariant
                i <= constraints@.len(),
                all == agg_sources(requirements@, constraints@, overrides@),
                forall|k: int| 0 <= k < constraints@.len() ==> source_wf(
                    #[trigger] &constraints@[k],
                ),
                done =~= requirements@ + constraints@.subrange(0, i as int),
                agg_inv(&spec, done),
                rr.len() == requirements@.len(),
                forall|q: int| 0 <= q < requirements@.len() ==> source_outcome(
                    #[trigger] &requirements@[q],
                    &Ok(rr[q]),
                ),
                rc.len() == i,
                forall|q: int| 0 <= q < i ==> source_outcome(
                    #[trigger] &constraints@[q],
                    &Ok(rc[q]),
                ),
                forall|q: int| 0 <= q < i ==> !source_has_unnamed(#[trigger] &constraints@[q]),
                spec.requirements@ == cat_requirements(rr),
                spec.editables@ == cat_editables(rr),
                spec.source_trees@ == cat_source_trees(rr),
                spec.project == first_project(rr),
                text_views(spec.extras@) == extras_fold(rr),
                spec.overrides@ == cat_overrides(rr),
                spec.constraints@ == cat_constraints(rr) + constraint_extraction(rc),
                spec.extra_index_urls@ == cat_extra_urls(rr) + cat_extra_urls(rc),
                spec.find_links@ == cat_find_links(rr) + cat_find_links(rc),
                filter_view(&spec.no_binary) == filter_fold(
                    (0int, Seq::<Seq<char>>::empty()),
                    nb_views(rr) + nb_views(rc),
                ),
                filter_view(&spec.no_build) == filter_fold(
                    (0int, Seq::<Seq<char>>::empty()),
                    nu_views(rr) + nu_views(rc),
                ),
            decreases constraints@.len() - i,
        {
            let source = &constraints[i];
            let ss = match Self::from_source(source) {
                Ok(ss) => ss,
                Err(e) => {
                    proof {
                        if e is Discovery {
                            assert(source_failed(&constraints@[i as int]));
                            assert(all[requirements@.len() + i] == constraints@[i as int]);
                        } else {
                            assert(source_outcome(&constraints@[i as int], &Err(e)));
                            assert(false);
                        }
                    }
                    return Err(e);
                },
            };
            let ghost ss0 = ss;
            let acc0 = spec;
            let ghost accg = acc0;
            spec = match Self::absorb(acc0, ss, SourceRole::Constraints) {
                Ok(n) => {
                    proof {
                        lemma_agg_step(&accg, &ss0, &n, &constraints@[i as int], done);
                        lemma_all_named(&ss0, &constraints@[i as int]);
                        lemma_reads_push(rc, ss0);
                        let rc0 = rc;
                        rc = rc.push(ss0);
                        assert(n.constraints@ =~= cat_constraints(rr) + constraint_extraction(
                            rc,
                        ));
                        assert(n.extra_index_urls@ =~= cat_extra_urls(rr) + cat_extra_urls(rc));
                        assert(n.find_links@ =~= cat_find_links(rr) + cat_find_links(rc));
                        assert(nb_views(rr) + nb_views(rc) =~= (nb_views(rr) + nb_views(
                            rc0,
                        )).push(filter_view(&ss0.no_binary)));
                        assert((nb_views(rr) + nb_views(rc)).drop_last() =~= nb_views(rr)
                            + nb_views(rc0));
                        assert((nb_views(rr) + nb_views(rc)).last() == filter_view(
                            &ss0.no_binary,
                        ));
                        assert(filter_fold(
                            (0int, Seq::<Seq<char>>::empty()),
                            nb_views(rr) + nb_views(rc),
                        ) == filter_combine(
                            filter_fold(
                                (0int, Seq::<Seq<char>>::empty()),
                                nb_views(rr) + nb_views(rc0),
                            ),
                            filter_view(&ss0.no_binary),
                        ));
                        assert(nu_views(rr) + nu_views(rc) =~= (nu_views(rr) + nu_views(
                            rc0,
                        )).push(filter_view(&ss0.no_build)));
                        assert((nu_views(rr) + nu_views(rc)).drop_last() =~= nu_views(rr)
                            + nu_views(rc0));
                        assert((nu_views(rr) + nu_views(rc)).last() == filter_view(
                            &ss0.no_build,
                        ));
                        assert(filter_fold(
                            (0int, Seq::<Seq<char>>::empty()),
                            nu_views(rr) + nu_views(rc),
                        ) == filter_combine(
                            filter_fold(
                                (0int, Seq::<Seq<char>>::empty()),
                                nu_views(rr) + nu_views(rc0),
                            ),
                            filter_view(&ss0.no_build),
                        ));
                    }
                    n
                },
                Err(e) => {
                    proof {
                        match e {
                            AggregateError::MultipleIndexUrls { .. } => {
                                assert(done =~= all.subrange(0, done.len() as int));
                                assert(all[done.len() as int] == constraints@[i as int]);
                                lemma_conflict(&accg, &ss0, &constraints@[i as int], done, all);
                            },
                            AggregateError::UnnamedConstraint { .. } => {
                                lemma_unnamed(&ss0, &constraints@[i as int]);
                            },
                            AggregateError::Discovery(_) => {
                                assert(false);
                            },
                        }
                    }
                    return Err(e);
                },
            };
            proof {
                done = done.push(constraints@[i as int]);
                assert(done =~= requirements@ + constraints@.subrange(0, i + 1));
            }
            i = i + 1;
        }
        proof {
            assert(spec.overrides@ =~= cat_overrides(rr) + override_extraction(ro));
            assert(spec.extra_index_urls@ =~= cat_extra_urls(rr) + cat_extra_urls(rc)
                + cat_extra_urls(ro));
            assert(spec.find_links@ =~= cat_find_links(rr) + cat_find_links(rc) + cat_find_links(
                ro,
            ));
            assert(nb_views(rr) + nb_views(rc) + nb_views(ro) =~= nb_views(rr) + nb_views(rc));
            assert(nu_views(rr) + nu_views(rc) + nu_views(ro) =~= nu_views(rr) + nu_views(rc));
        }
        let mut i: usize = 0;
        while i < overrides.len()
            invariant
                i <= overrides@.len(),
                all == agg_sources(requirements@, constraints@, overrides@),
                forall|k: int| 0 <= k < overrides@.len() ==> source_wf(#[trigger] &overrides@[k]),
                done =~= requirements@ + constraints@ + overrides@.subrange(0, i as int),
                agg_inv(&spec, done),
                rr.len() == requirements@.len(),
                forall|q: int| 0 <= q < requirements@.len() ==> source_outcome(
                    #[trigger] &requirements@[q],
                    &Ok(rr[q]),
                ),
                rc.len() == constraints@.len(),
                forall|q: int| 0 <= q < constraints@.len() ==> source_outcome(
                    #[trigger] &constraints@[q],
                    &Ok(rc[q]),
                ),
                forall|q: int| 0 <= q < constraints@.len() ==> !source_has_unnamed(
                    #[trigger] &constraints@[q],
                ),
                ro.len() == i,
                forall|q: int| 0 <= q < i ==> source_outcome(
                    #[trigger] &overrides@[q],
                    &Ok(ro[q]),
                ),
                spec.requirements@ == cat_requirements(rr),
                spec.editables@ == cat_editables(rr),
                spec.source_trees@ == cat_source_trees(rr),
                spec.project == first_project(rr),
                text_views(spec.extras@) == extras_fold(rr),
                spec.constraints@ == cat_constraints(rr) + constraint_extraction(rc),
                spec.overrides@ == cat_overrides(rr) + override_extraction(ro),
                spec.extra_index_urls@ == cat_extra_urls(rr) + cat_extra_urls(rc) + cat_extra_urls(
                    ro,
                ),
                spec.find_links@ == cat_find_links(rr) + cat_find_links(rc) + cat_find_links(ro),
                filter_view(&spec.no_binary) == filter_fold(
                    (0int, Seq::<Seq<char>>::empty()),
                    nb_views(rr) + nb_views(rc) + nb_views(ro),
                ),
                filter_view(&spec.no_build) == filter_fold(
                    (0int, Seq::<Seq<char>>::empty()),
                    nu_views(rr) + nu_views(rc) + nu_views(ro),
                ),
            decreases overrides@.len() - i,
        {
            let source = &overrides[i];
            let ss = match Self::from_source(source) {
                Ok(ss) => ss,
                Err(e) => {
                    proof {
                        if e is Discovery {
                            assert(source_failed(&overrides@[i as int]));
                            assert(all[requirements@.len() + constraints@.len() + i]
                                == overrides@[i as int]);
                        } else {
                            assert(source_outcome(&overrides@[i as int], &Err(e)));
                            assert(false);
                        }
                    }
                    return Err(e);
                },
            };
            let ghost ss0 = ss;
            let acc0 = spec;
            let ghost accg = acc0;
            spec = match Self::absorb(acc0, ss, SourceRole::Overrides) {
                Ok(n) => {
                    proof {
                        lemma_agg_step(&accg, &ss0, &n, &overrides@[i as int], done);
                        lemma_reads_push(ro, ss0);
                        let ro0 = ro;
                        ro = ro.push(ss0);
                        assert(n.overrides@ =~= cat_overrides(rr) + override_extraction(ro));
                        assert(n.extra_index_urls@ =~= cat_extra_urls(rr) + cat_extra_urls(rc)
                            + cat_extra_urls(ro));
                        assert(n.find_links@ =~= cat_find_links(rr) + cat_find_links(rc)
                            + cat_find_links(ro));
                        assert(nb_views(rr) + nb_views(rc) + nb_views(ro) =~= (nb_views(rr)
                            + nb_views(rc) + nb_views(ro0)).push(filter_view(&ss0.no_binary)));
                        assert((nb_views(rr) + nb_views(rc) + nb_views(ro)).drop_last()
                            =~= nb_views(rr) + nb_views(rc) + nb_views(ro0));
                        assert((nb_views(rr) + nb_views(rc) + nb_views(ro)).last() == filter_view(
                            &ss0.no_binary,
                        ));
                        assert(filter_fold(
                            (0int, Seq::<Seq<char>>::empty()),
                            nb_views(rr) + nb_views(rc) + nb_views(ro),
                        ) == filter_combine(
                            filter_fold(
                                (0int, Seq::<Seq<char>>::empty()),
                                nb_views(rr) + nb_views(rc) + nb_views(ro0),
                            ),
                            filter_view(&ss0.no_binary),
                        ));
                        assert(nu_views(rr) + nu_views(rc) + nu_views(ro) =~= (nu_views(rr)
                            + nu_views(rc) + nu_views(ro0)).push(filter_view(&ss0.no_build)));
                        assert((nu_views(rr) + nu_views(rc) + nu_views(ro)).drop_last()
                            =~= nu_views(rr) + nu_views(rc) + nu_views(ro0));
                        assert((nu_views(rr) + nu_views(rc) + nu_views(ro)).last() == filter_view(
                            &ss0.no_build,
                        ));
                        assert(filter_fold(
                            (0int, Seq::<Seq<char>>::empty()),
                            nu_views(rr) + nu_views(rc) + nu_views(ro),
                        ) == filter_combine(
                            filter_fold(
                                (0int, Seq::<Seq<char>>::empty()),
                                nu_views(rr) + nu_views(rc) + nu_views(ro0),
                            ),
                            filter_view(&ss0.no_build),
                        ));
                    }
                    n
                },
                Err(e) => {
                    proof {
                        match e {
                            AggregateError::MultipleIndexUrls { .. } => {
                                assert(done =~= all.subrange(0, done.len() as int));
                                assert(all[done.len() as int] == overrides@[i as int]);
                                lemma_conflict(&accg, &ss0, &overrides@[i as int], done, all);
                            },
                            AggregateError::UnnamedConstraint { .. } => {
                                assert(false);
                            },
                            AggregateError::Discovery(_) => {
                                assert(false);
                            },
                        }
                    }
                    return Err(e);
                },
            };
            proof {
                done = done.push(overrides@[i as int]);
                assert(done =~= requirements@ + constraints@ + overrides@.subrange(0, i + 1));
            }
            i = i + 1;
        }
        proof {
            assert(done =~= all);
            lemma_agg_done(&spec, all);
            let rds = (rr, rc, ro);
            assert(agg_reads_ok(requirements@, constraints@, overrides@, rds.0, rds.1, rds.2));
            assert(agg_result_ok(&spec, rds.0, rds.1, rds.2));
        }
        Ok(spec)
    }

    /// Read the requirements from a set of plain requirement sources: the
    /// same aggregation, with no constraint and no override sources.
    pub fn from_simple_sources(requirements: &Vec<RequirementsSource>) -> (r: Result<
        RequirementsSpecification,
        AggregateError,
    >)
        requires
            forall|i: int| 0 <= i < requirements@.len() ==> source_wf(
                #[trigger] &requirements@[i],
            ),
        ensures
            from_sources_outcome(requirements@, Seq::empty(), Seq::empty(), &r),
    {
        let constraints: Vec<RequirementsSource> = Vec::new();
        let overrides: Vec<RequirementsSource> = Vec::new();
        let r = Self::from_sources(requirements, &constraints, &overrides);
        proof {
            assert(constraints@ =~= Seq::<RequirementsSource>::empty());
            assert(overrides@ =~= Seq::<RequirementsSource>::empty());
        }
        r
    }
}

/// An index conflict while absorbing a source refutes compatibility of the
/// whole set.
proof fn lemma_conflict(
    acc: &RequirementsSpecification,
    ss: &RequirementsSpecification,
    source: &RequirementsSource,
    done: Seq<RequirementsSource>,
    all: Seq<RequirementsSource>,
)
    requires
        agg_inv(acc, done),
        source_outcome(source, &Ok(*ss)),
        !index_compat(&acc.index_url, &ss.index_url),
        done == all.subrange(0, done.len() as int),
        done.len() < all.len(),
        all[done.len() as int] == *source,
    ensures
        !sources_index_compat(all),
{
    match (acc.index_url, ss.index_url) {
        (Some(e), Some(u)) => {
            assert(source_index_canon(source) == Some(canonical_text(&u, true))) by {
                match source {
                    RequirementsSource::RequirementsTxt(c) => {
                        assert(opt_url_equiv(&ss.index_url, &c.index_url));
                        match c.index_url {
                            Some(ref cu) => {
                                lemma_canonical_congruent(&u, cu);
                            },
                            None => {
                                assert(false);
                            },
                        }
                    },
                    _ => {
                        assert(spec_no_index_config(ss));
                        assert(false);
                    },
                }
            }
            let w = choose|i: int|
                0 <= i < done.len() && source_index_canon(#[trigger] &done[i]) == Some(
                    canonical_text(&e, true),
                );
            let sa = done.len() as int;
            assert(all.subrange(0, done.len() as int)[w] == all[w]);
            assert(source_index_canon(&all[w]) == Some(canonical_text(&e, true)));
            assert(source_index_canon(&all[sa]) == Some(canonical_text(&u, true)));
            assert(canonical_text(&e, true) != canonical_text(&u, true));
            assert(!sources_index_compat(all));
        },
        _ => {
            assert(false);
        },
    }
}

/// An unnamed entry in a constraint source's reading traces back to the
/// source itself.
proof fn lemma_unnamed(ss: &RequirementsSpecification, source: &RequirementsSource)
    requires
        source_outcome(source, &Ok(*ss)),
        exists|k: int| 0 <= k < ss.requirements@.len() && (
        #[trigger] ss.requirements@[k]).requirement is Unnamed,
    ensures
        source_has_unnamed(source),
{
    let k = choose|k: int|
        0 <= k < ss.requirements@.len() && (#[trigger] ss.requirements@[k]).requirement
            is Unnamed;
    match source {
        RequirementsSource::Package(e) => {
            assert(entry_view(&ss.requirements@[0]) == entry_view(e));
            assert(entry_view(e).0 is Unnamed);
        },
        RequirementsSource::RequirementsTxt(c) => {
            assert(entry_view(&ss.requirements@[k]) == entry_view(&c.requirements@[k]));
            assert(entry_view(&c.requirements@[k]).0 is Unnamed);
            assert((c.requirements@[k]).requirement is Unnamed);
        },
        RequirementsSource::PyprojectToml(p) => {
            match p.state {
                PyprojectState::Discovered(ref pw) => {
                    assert(entry_view(&ss.requirements@[k]).0 matches AnyReqView::Named(rv));
                    assert(false);
                },
                PyprojectState::Dynamic => {
                    assert(false);
                },
                PyprojectState::Failed(_) => {
                    assert(false);
                },
            }
        },
        RequirementsSource::Editable(_) => {
            assert(false);
        },
        RequirementsSource::SetupPy(_) => {
            assert(false);
        },
        RequirementsSource::SetupCfg(_) => {
            assert(false);
        },
        RequirementsSource::SourceTree(_) => {},
    }
}

/// Once every source was absorbed, the invariant yields the index laws.
proof fn lemma_agg_done(s: &RequirementsSpecification, all: Seq<RequirementsSource>)
    requires
        agg_inv(s, all),
    ensures
        sources_index_compat(all),
{
    match s.index_url {
        None => {},
        Some(u) => {},
    }
}


/// Whether an entry with this value is already listed.
fn entries_listed(v: &Vec<RequirementEntry>, x: &RequirementEntry) -> (r: bool)
    ensures
        r == entry_views(v@).contains(entry_view(x)),
{
    let mut i: usize = 0;
    while i < v.len()
        invariant
            i <= v@.len(),
            forall|j: int| 0 <= j < i ==> entry_view(#[trigger] &v@[j]) != entry_view(x),
        decreases v@.len() - i,
    {
        if crate::requirement::entry_eq(&v[i], x) {
            proof {
                assert(entry_views(v@)[i as int] == entry_view(x));
            }
            return true;
        }
        i = i + 1;
    }
    proof {
        if entry_views(v@).contains(entry_view(x)) {
            let j = choose|j: int|
                0 <= j < entry_views(v@).len() && entry_views(v@)[j] == entry_view(x);
            assert(entry_view(&v@[j]) == entry_view(x));
            assert(false);
        }
    }
    false
}

/// Append the entries of `b` whose values `a` does not already hold.
fn extend_entries_dedup(a: Vec<RequirementEntry>, b: &Vec<RequirementEntry>) -> (r: Vec<
    RequirementEntry,
>)
    ensures
        entry_views(r@) == dedup_concat(entry_views(a@), entry_views(b@)),
{
    let ghost av = entry_views(a@);
    let ghost bv = entry_views(b@);
    let mut r = a;
    let mut i: usize = 0;
    proof {
        assert(bv.subrange(0, 0) =~= Seq::<(AnyReqView, Seq<Seq<char>>)>::empty());
    }
    while i < b.len()
        invariant
            i <= b@.len(),
            bv == entry_views(b@),
            entry_views(r@) == dedup_concat(av, bv.subrange(0, i as int)),
        decreases b@.len() - i,
    {
        proof {
            assert(bv.subrange(0, i + 1).drop_last() =~= bv.subrange(0, i as int));
            assert(bv.subrange(0, i + 1).last() == entry_view(&b@[i as int]));
        }
        if !entries_listed(&r, &b[i]) {
            r.push(b[i].dup());
            proof {
                assert(entry_views(r@) =~= dedup_concat(av, bv.subrange(0, i as int)).push(
                    entry_view(&b@[i as int]),
                ));
            }
        }
        i = i + 1;
    }
    proof {
        assert(bv.subrange(0, b@.len() as int) =~= bv);
    }
    r
}

/// Whether a requirement with this value is already listed.
fn reqs_listed(v: &Vec<Requirement>, x: &Requirement) -> (r: bool)
    ensures
        r == req_views(v@).contains(req_view(x)),
{
    let mut i: usize = 0;
    while i < v.len()
        invariant
            i <= v@.len(),
            forall|j: int| 0 <= j < i ==> req_view(#[trigger] &v@[j]) != req_view(x),
        decreases v@.len() - i,
    {
        if crate::requirement::req_eq(&v[i], x) {
            proof {
                assert(req_views(v@)[i as int] == req_view(x));
            }
            return true;
        }
        i = i + 1;
    }
    proof {
        if req_views(v@).contains(req_view(x)) {
            let j = choose|j: int| 0 <= j < req_views(v@).len() && req_views(v@)[j] == req_view(x);
            assert(req_view(&v@[j]) == req_view(x));
            assert(false);
        }
    }
    false
}

/// Append the requirements of `b` whose values `a` does not already hold.
fn extend_reqs_dedup(a: Vec<Requirement>, b: &Vec<Requirement>) -> (r: Vec<Requirement>)
    ensures
        req_views(r@) == dedup_concat(req_views(a@), req_views(b@)),
{
    let ghost av = req_views(a@);
    let ghost bv = req_views(b@);
    let mut r = a;
    let mut i: usize = 0;
    proof {
        assert(bv.subrange(0, 0) =~= Seq::<ReqView>::empty());
    }
    while i < b.len()
        invariant
            i <= b@.len(),
            bv == req_views(b@),
            req_views(r@) == dedup_concat(av, bv.subrange(0, i as int)),
        decreases b@.len() - i,
    {
        proof {
            assert(bv.subrange(0, i + 1).drop_last() =~= bv.subrange(0, i as int));
            assert(bv.subrange(0, i + 1).last() == req_view(&b@[i as int]));
        }
        if !reqs_listed(&r, &b[i]) {
            r.push(b[i].dup());
            proof {
                assert(req_views(r@) =~= dedup_concat(av, bv.subrange(0, i as int)).push(
                    req_view(&b@[i as int]),
                ));
            }
        }
        i = i + 1;
    }
    proof {
        assert(bv.subrange(0, b@.len() as int) =~= bv);
    }
    r
}

/// Whether an editable with this value is already listed.
fn eds_listed(v: &Vec<EditableRequirement>, x: &EditableRequirement) -> (r: bool)
    ensures
        r == ed_views(v@).contains(editable_view(x)),
{
    let mut i: usize = 0;
    while i < v.len()
        invariant
            i <= v@.len(),
            forall|j: int| 0 <= j < i ==> editable_view(#[trigger] &v@[j]) != editable_view(x),
        decreases v@.len() - i,
    {
        if crate::requirement::editable_eq(&v[i], x) {
            proof {
                assert(ed_views(v@)[i as int] == editable_view(x));
            }
            return true;
        }
        i = i + 1;
    }
    proof {
        if ed_views(v@).contains(editable_view(x)) {
            let j = choose|j: int|
                0 <= j < ed_views(v@).len() && ed_views(v@)[j] == editable_view(x);
            assert(editable_view(&v@[j]) == editable_view(x));
            assert(false);
        }
    }
    false
}

/// Append the editables of `b` whose values `a` does not already hold.
fn extend_eds_dedup(a: Vec<EditableRequirement>, b: &Vec<EditableRequirement>) -> (r: Vec<
    EditableRequirement,
>)
    ensures
        ed_views(r@) == dedup_concat(ed_views(a@), ed_views(b@)),
{
    let ghost av = ed_views(a@);
    let ghost bv = ed_views(b@);
    let mut r = a;
    let mut i: usize = 0;
    proof {
        assert(bv.subrange(0, 0) =~= Seq::<EditableView>::empty());
    }
    while i < b.len()
        invariant
            i <= b@.len(),
            bv == ed_views(b@),
            ed_views(r@) == dedup_concat(av, bv.subrange(0, i as int)),
        decreases b@.len() - i,
    {
        proof {
            assert(bv.subrange(0, i + 1).drop_last() =~= bv.subrange(0, i as int));
            assert(bv.subrange(0, i + 1).last() == editable_view(&b@[i as int]));
        }
        if !eds_listed(&r, &b[i]) {
            r.push(b[i].dup());
            proof {
                assert(ed_views(r@) =~= dedup_concat(av, bv.subrange(0, i as int)).push(
                    editable_view(&b@[i as int]),
                ));
            }
        }
        i = i + 1;
    }
    proof {
        assert(bv.subrange(0, b@.len() as int) =~= bv);
    }
    r
}

/// Whether a locator with this value is already listed.
fn urls_listed(v: &Vec<Url>, x: &Url) -> (r: bool)
    ensures
        r == url_views(v@).contains(url_view(x)),
{
    let mut i: usize = 0;
    while i < v.len()
        invariant
            i <= v@.len(),
            forall|j: int| 0 <= j < i ==> url_view(#[trigger] &v@[j]) != url_view(x),
        decreases v@.len() - i,
    {
        if crate::requirement::url_eq(&v[i], x) {
            proof {
                assert(url_views(v@)[i as int] == url_view(x));
            }
            return true;
        }
        i = i + 1;
    }
    proof {
        if url_views(v@).contains(url_view(x)) {
            let j = choose|j: int| 0 <= j < url_views(v@).len() && url_views(v@)[j] == url_view(x);
            assert(url_view(&v@[j]) == url_view(x));
            assert(false);
        }
    }
    false
}

/// Append the locators of `b` whose values `a` does not already hold.
fn extend_urls_dedup(a: Vec<Url>, b: &Vec<Url>) -> (r: Vec<Url>)
    ensures
        url_views(r@) == dedup_concat(url_views(a@), url_views(b@)),
{
    let ghost av = url_views(a@);
    let ghost bv = url_views(b@);
    let mut r = a;
    let mut i: usize = 0;
    proof {
        assert(bv.subrange(0, 0) =~= Seq::<UrlView>::empty());
    }
    while i < b.len()
        invariant
            i <= b@.len(),
            bv == url_views(b@),
            url_views(r@) == dedup_concat(av, bv.subrange(0, i as int)),
        decreases b@.len() - i,
    {
        proof {
            assert(bv.subrange(0, i + 1).drop_last() =~= bv.subrange(0, i as int));
            assert(bv.subrange(0, i + 1).last() == url_view(&b@[i as int]));
        }
        if !urls_listed(&r, &b[i]) {
            let d = b[i].dup();
            proof {
                assert(url_view(&d) =~= url_view(&b@[i as int]));
            }
            r.push(d);
            proof {
                assert(url_views(r@) =~= dedup_concat(av, bv.subrange(0, i as int)).push(
                    url_view(&b@[i as int]),
                ));
            }
        }
        i = i + 1;
    }
    proof {
        assert(bv.subrange(0, b@.len() as int) =~= bv);
    }
    r
}

/// Whether two flat-index sources agree.
fn flat_eq(a: &FlatIndexLocation, b: &FlatIndexLocation) -> (r: bool)
    ensures
        r == (flat_index_view(a) == flat_index_view(b)),
{
    match (a, b) {
        (FlatIndexLocation::Url(x), FlatIndexLocation::Url(y)) => crate::requirement::url_eq(x, y),
        (FlatIndexLocation::Path(x), FlatIndexLocation::Path(y)) => crate::strutil::str_eq(
            x.as_str(),
            y.as_str(),
        ),
        _ => false,
    }
}

/// Whether a flat-index source with this value is already listed.
fn flats_listed(v: &Vec<FlatIndexLocation>, x: &FlatIndexLocation) -> (r: bool)
    ensures
        r == flat_views(v@).contains(flat_index_view(x)),
{
    let mut i: usize = 0;
    while i < v.len()
        invariant
            i <= v@.len(),
            forall|j: int| 0 <= j < i ==> flat_index_view(#[trigger] &v@[j]) != flat_index_view(
                x,
            ),
        decreases v@.len() - i,
    {
        if flat_eq(&v[i], x) {
            proof {
                assert(flat_views(v@)[i as int] == flat_index_view(x));
            }
            return true;
        }
        i = i + 1;
    }
    proof {
        if flat_views(v@).contains(flat_index_view(x)) {
            let j = choose|j: int|
                0 <= j < flat_views(v@).len() && flat_views(v@)[j] == flat_index_view(x);
            assert(flat_index_view(&v@[j]) == flat_index_view(x));
            assert(false);
        }
    }
    false
}

/// Append the flat-index sources of `b` whose values `a` does not hold.
fn extend_flats_dedup(a: Vec<FlatIndexLocation>, b: &Vec<FlatIndexLocation>) -> (r: Vec<
    FlatIndexLocation,
>)
    ensures
        flat_views(r@) == dedup_concat(flat_views(a@), flat_views(b@)),
{
    let ghost av = flat_views(a@);
    let ghost bv = flat_views(b@);
    let mut r = a;
    let mut i: usize = 0;
    proof {
        assert(bv.subrange(0, 0) =~= Seq::<(bool, UrlView, Seq<char>)>::empty());
    }
    while i < b.len()
        invariant
            i <= b@.len(),
            bv == flat_views(b@),
            flat_views(r@) == dedup_concat(av, bv.subrange(0, i as int)),
        decreases b@.len() - i,
    {
        proof {
            assert(bv.subrange(0, i + 1).drop_last() =~= bv.subrange(0, i as int));
            assert(bv.subrange(0, i + 1).last() == flat_index_view(&b@[i as int]));
        }
        if !flats_listed(&r, &b[i]) {
            r.push(b[i].dup());
            proof {
                assert(flat_views(r@) =~= dedup_concat(av, bv.subrange(0, i as int)).push(
                    flat_index_view(&b@[i as int]),
                ));
            }
        }
        i = i + 1;
    }
    proof {
        assert(bv.subrange(0, b@.len() as int) =~= bv);
    }
    r
}

/// Append the texts of `b` that `a` does not hold, reading `b` in place.
fn extend_texts_dedup_ref(a: Vec<String>, b: &Vec<String>) -> (r: Vec<String>)
    ensures
        text_views(r@) == dedup_concat(text_views(a@), text_views(b@)),
{
    let ghost av = text_views(a@);
    let ghost bv = text_views(b@);
    let mut r = a;
    let mut i: usize = 0;
    proof {
        assert(bv.subrange(0, 0) =~= Seq::<Seq<char>>::empty());
    }
    while i < b.len()
        invariant
            i <= b@.len(),
            bv == text_views(b@),
            text_views(r@) == dedup_concat(av, bv.subrange(0, i as int)),
        decreases b@.len() - i,
    {
        proof {
            assert(bv.subrange(0, i + 1).drop_last() =~= bv.subrange(0, i as int));
            assert(bv.subrange(0, i + 1).last() == b@[i as int]@);
        }
        if !text_listed(&r, &b[i]) {
            r.push(b[i].clone());
            proof {
                assert(text_views(r@) =~= dedup_concat(av, bv.subrange(0, i as int)).push(
                    b@[i as int]@,
                ));
            }
        }
        i = i + 1;
    }
    proof {
        assert(bv.subrange(0, b@.len() as int) =~= bv);
    }
    r
}

impl RequirementsSpecification {
    /// Merge two complete specifications: every list takes the other's
    /// elements it does not already hold, the filters join by set union,
    /// `no_index` by or, and the project and index location are first-wins
    /// — a differing second index location is fatal.
    pub fn merge(self, other: RequirementsSpecification) -> (r: Result<
        RequirementsSpecification,
        AggregateError,
    >)
        ensures
            match r {
                Ok(n) => {
                    &&& entry_views(n.requirements@) == dedup_concat(
                        entry_views(self.requirements@),
                        entry_views(other.requirements@),
                    )
                    &&& req_views(n.constraints@) == dedup_concat(
                        req_views(self.constraints@),
                        req_views(other.constraints@),
                    )
                    &&& entry_views(n.overrides@) == dedup_concat(
                        entry_views(self.overrides@),
                        entry_views(other.overrides@),
                    )
                    &&& ed_views(n.editables@) == dedup_concat(
                        ed_views(self.editables@),
                        ed_views(other.editables@),
                    )
                    &&& text_views(n.source_trees@) == dedup_concat(
                        text_views(self.source_trees@),
                        text_views(other.source_trees@),
                    )
                    &&& text_views(n.extras@) == dedup_concat(
                        text_views(self.extras@),
                        text_views(other.extras@),
                    )
                    &&& url_views(n.extra_index_urls@) == dedup_concat(
                        url_views(self.extra_index_urls@),
                        url_views(other.extra_index_urls@),
                    )
                    &&& flat_views(n.find_links@) == dedup_concat(
                        flat_views(self.find_links@),
                        flat_views(other.find_links@),
                    )
                    &&& filter_view(&n.no_binary) == filter_combine(
                        filter_view(&self.no_binary),
                        filter_view(&other.no_binary),
                    )
                    &&& filter_view(&n.no_build) == filter_combine(
                        filter_view(&self.no_build),
                        filter_view(&other.no_build),
                    )
                    &&& n.no_index == (self.no_index || other.no_index)
                    &&& match self.project {
                        Some(p) => n.project matches Some(q) && q@ == p@,
                        None => match other.project {
                            Some(p) => n.project matches Some(q) && q@ == p@,
                            None => n.project is None,
                        },
                    }
                    &&& index_compat(&self.index_url, &other.index_url)
                    &&& match self.index_url {
                        Some(u) => n.index_url matches Some(w) && url_view(&w) == url_view(&u),
                        None => match other.index_url {
                            Some(u) => n.index_url matches Some(w) && url_view(&w) == url_view(
                                &u,
                            ),
                            None => n.index_url is None,
                        },
                    }
                },
                Err(e) => match e {
                    AggregateError::MultipleIndexUrls { .. } => !index_compat(
                        &self.index_url,
                        &other.index_url,
                    ),
                    _ => false,
                },
            },
    {
        match (&self.index_url, &other.index_url) {
            (Some(e), Some(u)) => {
                let ka = e.distribution_key();
                let kb = u.distribution_key();
                if !crate::strutil::str_eq(ka.as_str(), kb.as_str()) {
                    return Err(
                        AggregateError::MultipleIndexUrls {
                            existing: e.verbatim.clone(),
                            given: u.verbatim.clone(),
                        },
                    );
                }
            },
            _ => {},
        }
        let RequirementsSpecification {
            project: a_project,
            requirements: a_requirements,
            constraints: a_constraints,
            overrides: a_overrides,
            editables: a_editables,
            source_trees: a_source_trees,
            extras: a_extras,
            index_url: a_index_url,
            extra_index_urls: a_extra_index_urls,
            no_index: a_no_index,
            find_links: a_find_links,
            no_binary: a_no_binary,
            no_build: a_no_build,
        } = self;
        let project = match a_project {
            Some(p) => Some(p),
            None => other.project,
        };
        let index_url = match a_index_url {
            Some(u) => Some(u),
            None => other.index_url,
        };
        Ok(
            RequirementsSpecification {
                project,
                requirements: extend_entries_dedup(a_requirements, &other.requirements),
                constraints: extend_reqs_dedup(a_constraints, &other.constraints),
                overrides: extend_entries_dedup(a_overrides, &other.overrides),
                editables: extend_eds_dedup(a_editables, &other.editables),
                source_trees: extend_texts_dedup_ref(a_source_trees, &other.source_trees),
                extras: extend_texts_dedup_ref(a_extras, &other.extras),
                index_url,
                extra_index_urls: extend_urls_dedup(a_extra_index_urls, &other.extra_index_urls),
                no_index: a_no_index || other.no_index,
                find_links: extend_flats_dedup(a_find_links, &other.find_links),
                no_binary: a_no_binary.combine(other.no_binary),
                no_build: a_no_build.combine(other.no_build),
            },
        )
    }
}

/// A sequence holds each of its elements.
proof fn lemma_self_contains<T>(s: Seq<T>)
    ensures
        forall|i: int| 0 <= i < s.len() ==> s.contains(#[trigger] s[i]),
{
    assert forall|i: int| 0 <= i < s.len() implies s.contains(s[i]) by {
        assert(0 <= i < s.len() && s[i] == s[i]);
    }
}

/// Merging a specification with itself yields it back: every list already
/// holds its own elements, so the dedup union adds nothing; the filters
/// absorb themselves; the or, first-wins and canonical-agreement fields
/// keep their values.
pub proof fn lemma_aggregator_idempotent(s: &RequirementsSpecification)
    ensures
        dedup_concat(entry_views(s.requirements@), entry_views(s.requirements@)) == entry_views(
            s.requirements@,
        ),
        dedup_concat(req_views(s.constraints@), req_views(s.constraints@)) == req_views(
            s.constraints@,
        ),
        dedup_concat(entry_views(s.overrides@), entry_views(s.overrides@)) == entry_views(
            s.overrides@,
        ),
        dedup_concat(ed_views(s.editables@), ed_views(s.editables@)) == ed_views(s.editables@),
        dedup_concat(text_views(s.source_trees@), text_views(s.source_trees@)) == text_views(
            s.source_trees@,
        ),
        dedup_concat(text_views(s.extras@), text_views(s.extras@)) == text_views(s.extras@),
        dedup_concat(url_views(s.extra_index_urls@), url_views(s.extra_index_urls@)) == url_views(
            s.extra_index_urls@,
        ),
        dedup_concat(flat_views(s.find_links@), flat_views(s.find_links@)) == flat_views(
            s.find_links@,
        ),
        filter_combine(filter_view(&s.no_binary), filter_view(&s.no_binary)) == filter_view(
            &s.no_binary,
        ),
        filter_combine(filter_view(&s.no_build), filter_view(&s.no_build)) == filter_view(
            &s.no_build,
        ),
        (s.no_index || s.no_index) == s.no_index,
        index_compat(&s.index_url, &s.index_url),
{
    lemma_self_contains(entry_views(s.requirements@));
    lemma_dedup_concat_absorbed(entry_views(s.requirements@), entry_views(s.requirements@));
    lemma_self_contains(req_views(s.constraints@));
    lemma_dedup_concat_absorbed(req_views(s.constraints@), req_views(s.constraints@));
    lemma_self_contains(entry_views(s.overrides@));
    lemma_dedup_concat_absorbed(entry_views(s.overrides@), entry_views(s.overrides@));
    lemma_self_contains(ed_views(s.editables@));
    lemma_dedup_concat_absorbed(ed_views(s.editables@), ed_views(s.editables@));
    lemma_self_contains(text_views(s.source_trees@));
    lemma_dedup_concat_absorbed(text_views(s.source_trees@), text_views(s.source_trees@));
    lemma_self_contains(text_views(s.extras@));
    lemma_dedup_concat_absorbed(text_views(s.extras@), text_views(s.extras@));
    lemma_self_contains(url_views(s.extra_index_urls@));
    lemma_dedup_concat_absorbed(url_views(s.extra_index_urls@), url_views(s.extra_index_urls@));
    lemma_self_contains(flat_views(s.find_links@));
    lemma_dedup_concat_absorbed(flat_views(s.find_links@), flat_views(s.find_links@));
    let nb = filter_view(&s.no_binary);
    if nb.0 == 2 {
        lemma_self_contains(nb.1);
        lemma_dedup_concat_absorbed(nb.1, nb.1);
    }
    let nu = filter_view(&s.no_build);
    if nu.0 == 2 {
        lemma_self_contains(nu.1);
        lemma_dedup_concat_absorbed(nu.1, nu.1);
    }
}


/// A canonical index conflict is fatal at aggregation: where the sources
/// carry no discovery fault and no unnamed constraint, yet two of them
/// declare canonically different index locations, aggregation must have
/// failed with the index conflict.
pub proof fn lemma_index_conflict_is_fatal(
    reqs: Seq<RequirementsSource>,
    cons: Seq<RequirementsSource>,
    overs: Seq<RequirementsSource>,
    r: &Result<RequirementsSpecification, AggregateError>,
)
    requires
        from_sources_outcome(reqs, cons, overs, r),
        !sources_index_compat(agg_sources(reqs, cons, overs)),
        forall|i: int| 0 <= i < agg_sources(reqs, cons, overs).len() ==> !source_failed(
            #[trigger] &agg_sources(reqs, cons, overs)[i],
        ),
        forall|i: int| 0 <= i < cons.len() ==> !source_has_unnamed(#[trigger] &cons[i]),
    ensures
        r matches Err(e) && e is MultipleIndexUrls,
{
    match r {
        Ok(_) => {
            assert(false);
        },
        Err(e) => {
            match e {
                AggregateError::MultipleIndexUrls { .. } => {},
                AggregateError::UnnamedConstraint { .. } => {
                    let i = choose|i: int|
                        0 <= i < cons.len() && source_has_unnamed(#[trigger] &cons[i]);
                    assert(false);
                },
                AggregateError::Discovery(_) => {
                    let i = choose|i: int|
                        0 <= i < agg_sources(reqs, cons, overs).len() && source_failed(
                            #[trigger] &agg_sources(reqs, cons, overs)[i],
                        );
                    assert(false);
                },
            }
        },
    }
}

} // verus!
