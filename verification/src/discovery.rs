//! Workspace discovery.
//!
//! A workspace is a directory whose manifest declares members by glob; each
//! member is a package with a manifest of its own. Discovery starts from a
//! directory, walks its ancestors to the nearest manifest with a project
//! section — the project root — then looks further up for an enclosing
//! workspace, enumerates its members, and builds the member map.
//!
//! The filesystem walk happens outside this crate: each directory of
//! interest arrives as a snapshot holding its parsed manifest and the
//! expansions of its member and exclude globs. The decisions over those
//! snapshots are verified here.

use vstd::prelude::*;
use crate::dist::LocalEditable;
use crate::name::PackageName;
use crate::requirement::{req_view, url_view, ReqView, Requirement, UrlView};

verus! {

/// A fault met while discovering the workspace.
#[derive(Debug)]
pub enum DiscoverError {
    /// No manifest in the start directory or any ancestor.
    MissingPyprojectToml,
    /// A member glob could not be expanded.
    Pattern(String),
    /// One expansion of a member glob could not be walked.
    Glob(String),
    /// A manifest could not be read.
    Io(String),
    /// A manifest could not be parsed.
    Toml(String),
    /// A manifest declares neither a project nor a workspace.
    MissingProject(String),
    /// A member path could not be normalized.
    Normalize(String),
}

/// How the workspace resolves references to one of its members.
pub struct SourceDecl {
    pub package: PackageName,
    pub workspace: bool,
    pub editable: Option<bool>,
}

/// The value a source declaration denotes.
pub open spec fn source_view(s: &SourceDecl) -> (Seq<char>, bool, Option<bool>) {
    (s.package@, s.workspace, s.editable)
}

/// The values of a source table.
pub open spec fn source_views(v: Seq<SourceDecl>) -> Seq<(Seq<char>, bool, Option<bool>)> {
    v.map_values(|s: SourceDecl| (s.package@, s.workspace, s.editable))
}

/// The workspace section of a manifest: member and exclude globs.
pub struct WorkspaceSection {
    pub members: Vec<String>,
    pub exclude: Vec<String>,
}

/// One declared dependency of a project, with how the workspace source
/// table resolves it: editable toward a local directory, or not.
pub struct DependencyDecl {
    pub requirement: Requirement,
    pub editable: Option<LocalEditable>,
}

/// The value a dependency declaration denotes.
pub open spec fn dep_view(d: &DependencyDecl) -> (ReqView, Option<(UrlView, Seq<char>)>) {
    (
        req_view(&d.requirement),
        match d.editable {
            Some(ref e) => Some((url_view(&e.url), e.path@)),
            None => None,
        },
    )
}

/// The values of a dependency list.
pub open spec fn dep_views(v: Seq<DependencyDecl>) -> Seq<(ReqView, Option<(UrlView, Seq<char>)>)> {
    v.map_values(
        |d: DependencyDecl|
            (
                req_view(&d.requirement),
                match d.editable {
                    Some(ref e) => Some((url_view(&e.url), e.path@)),
                    None => None,
                },
            ),
    )
}

/// The project section of a manifest: the package's name, its declared
/// dependencies — already filtered by the extras the caller accepts — and
/// the extras that filtering used.
pub struct ProjectSection {
    pub name: PackageName,
    pub dependencies: Vec<DependencyDecl>,
    pub used_extras: Vec<String>,
}

/// A parsed manifest: its project section, its workspace section, and its
/// source table, each optional.
pub struct Manifest {
    pub project: Option<ProjectSection>,
    pub workspace: Option<WorkspaceSection>,
    pub sources: Option<Vec<SourceDecl>>,
}

/// The value a manifest denotes.
pub struct ManifestView {
    pub project: Option<
        (Seq<char>, Seq<(ReqView, Option<(UrlView, Seq<char>)>)>, Seq<Seq<char>>),
    >,
    pub workspace: Option<(Seq<Seq<char>>, Seq<Seq<char>>)>,
    pub sources: Option<Seq<(Seq<char>, bool, Option<bool>)>>,
}

pub open spec fn manifest_view(m: &Manifest) -> ManifestView {
    ManifestView {
        project: match m.project {
            Some(ref p) => Some(
                (p.name@, dep_views(p.dependencies@), crate::requirement::text_views(
                    p.used_extras@,
                )),
            ),
            None => None,
        },
        workspace: match m.workspace {
            Some(ref w) => Some(
                (crate::requirement::text_views(w.members@), crate::requirement::text_views(
                    w.exclude@,
                )),
            ),
            None => None,
        },
        sources: match m.sources {
            Some(ref s) => Some(source_views(s@)),
            None => None,
        },
    }
}

/// Copy a source table.
pub fn dup_sources(v: &Vec<SourceDecl>) -> (r: Vec<SourceDecl>)
    ensures
        source_views(r@) == source_views(v@),
{
    let mut r: Vec<SourceDecl> = Vec::new();
    let mut i: usize = 0;
    while i < v.len()
        invariant
            i <= v.len(),
            r@.len() == i,
            forall|k: int| 0 <= k < i ==> #[trigger] source_view(&r@[k]) == source_view(&v@[k]),
        decreases v.len() - i,
    {
        r.push(
            SourceDecl {
                package: v[i].package.dup(),
                workspace: v[i].workspace,
                editable: v[i].editable,
            },
        );
        i = i + 1;
    }
    proof {
        assert forall|k: int| 0 <= k < r@.len() implies source_views(r@)[k] == source_views(v@)[k]
        by {
            assert(source_view(&r@[k]) == source_view(&v@[k]));
        }
        assert(source_views(r@) =~= source_views(v@));
    }
    r
}

impl DependencyDecl {
    pub fn dup(&self) -> (r: DependencyDecl)
        ensures
            dep_view(&r) == dep_view(self),
    {
        let editable = match &self.editable {
            Some(e) => {
                let u = e.url.dup();
                proof {
                    assert(url_view(&u) =~= url_view(&e.url));
                }
                Some(LocalEditable { url: u, path: e.path.clone() })
            },
            None => None,
        };
        DependencyDecl { requirement: self.requirement.dup(), editable }
    }
}

/// Copy a dependency list.
pub fn dup_deps(v: &Vec<DependencyDecl>) -> (r: Vec<DependencyDecl>)
    ensures
        dep_views(r@) == dep_views(v@),
{
    let mut r: Vec<DependencyDecl> = Vec::new();
    let mut i: usize = 0;
    while i < v.len()
        invariant
            i <= v.len(),
            r@.len() == i,
            forall|k: int| 0 <= k < i ==> #[trigger] dep_view(&r@[k]) == dep_view(&v@[k]),
        decreases v.len() - i,
    {
        r.push(v[i].dup());
        i = i + 1;
    }
    proof {
        assert forall|k: int| 0 <= k < r@.len() implies dep_views(r@)[k] == dep_views(v@)[k] by {
            assert(dep_view(&r@[k]) == dep_view(&v@[k]));
        }
        assert(dep_views(r@) =~= dep_views(v@));
    }
    r
}

impl Manifest {
    pub fn dup(&self) -> (r: Manifest)
        ensures
            manifest_view(&r) == manifest_view(self),
    {
        let project = match &self.project {
            Some(p) => Some(
                ProjectSection {
                    name: p.name.dup(),
                    dependencies: dup_deps(&p.dependencies),
                    used_extras: crate::requirement::dup_texts(&p.used_extras),
                },
            ),
            None => None,
        };
        let workspace = match &self.workspace {
            Some(w) => Some(
                WorkspaceSection {
                    members: crate::requirement::dup_texts(&w.members),
                    exclude: crate::requirement::dup_texts(&w.exclude),
                },
            ),
            None => None,
        };
        let sources = match &self.sources {
            Some(s) => Some(dup_sources(s)),
            None => None,
        };
        let r = Manifest { project, workspace, sources };
        proof {
            assert(manifest_view(&r) =~= manifest_view(self));
        }
        r
    }
}

/// One expansion of a member glob: a directory and its manifest, if any.
pub struct MemberDir {
    pub root: String,
    pub manifest: Option<Manifest>,
}

/// A directory of interest to discovery: its absolute path, its parsed
/// manifest when the manifest file exists, and — when that manifest
/// declares a workspace — the expansions of its exclude and member globs.
pub struct DirSnapshot {
    pub path: String,
    pub manifest: Option<Manifest>,
    pub exclude_roots: Vec<String>,
    pub member_dirs: Vec<MemberDir>,
}

/// A package in a workspace.
pub struct WorkspaceMember {
    root: String,
    pyproject_toml: Manifest,
}

impl WorkspaceMember {
    /// The path to the member's root directory.
    pub fn root(&self) -> (r: &String)
        ensures
            r@ == self.spec_root(),
    {
        &self.root
    }

    /// The member's parsed manifest.
    pub fn pyproject_toml(&self) -> (r: &Manifest)
        ensures
            manifest_view(r) == self.spec_manifest(),
    {
        &self.pyproject_toml
    }

    /// The path view.
    pub closed spec fn spec_root(&self) -> Seq<char> {
        self.root@
    }

    /// The manifest view.
    pub closed spec fn spec_manifest(&self) -> ManifestView {
        manifest_view(&self.pyproject_toml)
    }
}

/// A workspace: its root, its member map, and its source table.
pub struct Workspace {
    root: String,
    packages: Vec<(PackageName, WorkspaceMember)>,
    sources: Vec<SourceDecl>,
}

/// One member-map entry's value: name, root, manifest.
pub open spec fn member_entry_views(packages: Seq<(PackageName, WorkspaceMember)>) -> Seq<
    (Seq<char>, Seq<char>, ManifestView),
> {
    packages.map_values(
        |p: (PackageName, WorkspaceMember)|
            (p.0@, p.1.spec_root(), p.1.spec_manifest()),
    )
}

/// Whether the member names are pairwise distinct.
pub open spec fn unique_names(entries: Seq<(Seq<char>, Seq<char>, ManifestView)>) -> bool {
    forall|i: int, j: int| 0 <= i < j < entries.len() ==> (#[trigger] entries[i]).0 != (
    #[trigger] entries[j]).0
}

impl Workspace {
    /// There is no workspace: a one-directory stand-in used when resolving.
    pub fn empty(root: String) -> (r: Workspace)
        ensures
            r.spec_root() == root@,
            r.spec_packages().len() == 0,
            r.spec_sources().len() == 0,
    {
        Workspace { root, packages: Vec::new(), sources: Vec::new() }
    }

    /// The path to the workspace root.
    pub fn root(&self) -> (r: &String)
        ensures
            r@ == self.spec_root(),
    {
        &self.root
    }

    /// The member map, name to member, without duplicate names.
    pub fn packages(&self) -> (r: &Vec<(PackageName, WorkspaceMember)>)
        ensures
            member_entry_views(r@) == self.spec_packages(),
    {
        &self.packages
    }

    /// The source table of the workspace declaration.
    pub fn sources(&self) -> (r: &Vec<SourceDecl>)
        ensures
            source_views(r@) == self.spec_sources(),
    {
        &self.sources
    }

    pub closed spec fn spec_root(&self) -> Seq<char> {
        self.root@
    }

    pub closed spec fn spec_packages(&self) -> Seq<(Seq<char>, Seq<char>, ManifestView)> {
        member_entry_views(self.packages@)
    }

    pub closed spec fn spec_sources(&self) -> Seq<(Seq<char>, bool, Option<bool>)> {
        source_views(self.sources@)
    }
}

/// A package and the workspace it is part of.
pub struct ProjectWorkspace {
    project_root: String,
    project_name: PackageName,
    workspace: Workspace,
}

/// Whether a directory snapshot holds a manifest declaring a workspace.
pub open spec fn has_workspace(d: &DirSnapshot) -> bool {
    match d.manifest {
        Some(ref m) => m.workspace is Some,
        None => false,
    }
}

/// Whether a directory snapshot holds a manifest declaring a project.
pub open spec fn has_project(d: &DirSnapshot) -> bool {
    match d.manifest {
        Some(ref m) => m.project is Some,
        None => false,
    }
}

/// Whether a path is matched by the workspace's exclude expansions.
pub open spec fn spec_excluded(d: &DirSnapshot, p: Seq<char>) -> bool {
    exists|k: int| 0 <= k < d.exclude_roots@.len() && (#[trigger] d.exclude_roots@[k])@ == p
}

/// What the walk above a project decides.
pub enum WsOutcome {
    /// No enclosing workspace: the project stands alone.
    Standalone,
    /// The ancestor at this position is the workspace root.
    RootAt(int),
    /// The ancestor at this position has a manifest declaring neither a
    /// project nor a workspace, which is a fault.
    Undeclared(int),
}

/// The decision of the walk from position `i` upward: the first ancestor
/// with a manifest settles it.
pub open spec fn ws_decision(ancestors: Seq<DirSnapshot>, i: int, p: Seq<char>) -> WsOutcome
    decreases ancestors.len() - i,
{
    if i < 0 || i >= ancestors.len() {
        WsOutcome::Standalone
    } else {
        match ancestors[i].manifest {
            None => ws_decision(ancestors, i + 1, p),
            Some(ref m) => if m.workspace is Some {
                if spec_excluded(&ancestors[i], p) {
                    WsOutcome::Standalone
                } else {
                    WsOutcome::RootAt(i)
                }
            } else if m.project is Some {
                WsOutcome::Standalone
            } else {
                WsOutcome::Undeclared(i)
            },
        }
    }
}

/// Whether the project is matched by a workspace's exclude globs, as their
/// expansions say.
pub fn is_excluded_from_workspace(workspace_dir: &DirSnapshot, project_path: &String) -> (r: bool)
    ensures
        r == spec_excluded(workspace_dir, project_path@),
{
    let mut k: usize = 0;
    while k < workspace_dir.exclude_roots.len()
        invariant
            k <= workspace_dir.exclude_roots.len(),
            forall|j: int| 0 <= j < k ==> (#[trigger] workspace_dir.exclude_roots@[j])@
                != project_path@,
        decreases workspace_dir.exclude_roots.len() - k,
    {
        if crate::strutil::str_eq(workspace_dir.exclude_roots[k].as_str(), project_path.as_str()) {
            return true;
        }
        k = k + 1;
    }
    false
}

/// Find the workspace root above the current project, if any: the first
/// ancestor with a manifest settles it. A workspace that excludes the
/// project leaves it standing alone; an ancestor that is itself a plain
/// project does too.
pub fn find_workspace(ancestors: &Vec<DirSnapshot>, above: usize, project_path: &String) -> (r:
    Result<Option<usize>, DiscoverError>)
    requires
        above <= ancestors@.len(),
    ensures
        match ws_decision(ancestors@, above as int, project_path@) {
            WsOutcome::Standalone => r matches Ok(None),
            WsOutcome::RootAt(i) => r matches Ok(Some(j)) && j == i,
            WsOutcome::Undeclared(i) => r matches Err(e) && (e matches DiscoverError::MissingProject(
                p,
            ) && p@ == ancestors@[i].path@),
        },
        r matches Ok(Some(j)) ==> j < ancestors@.len() && ancestors@[j as int].manifest is Some,
{
    let mut k: usize = above;
    while k < ancestors.len()
        invariant
            above <= k <= ancestors@.len(),
            ws_decision(ancestors@, above as int, project_path@) == ws_decision(
                ancestors@,
                k as int,
                project_path@,
            ),
        decreases ancestors@.len() - k,
    {
        match &ancestors[k].manifest {
            None => {
                k = k + 1;
            },
            Some(m) => {
                if m.workspace.is_some() {
                    if is_excluded_from_workspace(&ancestors[k], project_path) {
                        return Ok(None);
                    }
                    return Ok(Some(k));
                } else if m.project.is_some() {
                    return Ok(None);
                } else {
                    return Err(DiscoverError::MissingProject(ancestors[k].path.clone()));
                }
            },
        }
    }
    Ok(None)
}

/// Whether an enclosing workspace would swallow the one just found: the
/// first ancestor with a manifest that declares a workspace not excluding
/// it. The path of that outer root is returned so a warning can name it;
/// nesting is never fatal.
pub open spec fn nested_decision(ancestors: Seq<DirSnapshot>, i: int, inner: Seq<char>) -> Option<
    int,
>
    decreases ancestors.len() - i,
{
    if i < 0 || i >= ancestors.len() {
        None
    } else {
        match ancestors[i].manifest {
            None => nested_decision(ancestors, i + 1, inner),
            Some(ref m) => if m.workspace is Some && !spec_excluded(&ancestors[i], inner) {
                Some(i)
            } else {
                None
            },
        }
    }
}

/// Warn when the workspace just discovered sits inside another workspace:
/// the outer root's path is returned when one encloses it.
pub fn check_nested_workspaces(ancestors: &Vec<DirSnapshot>, above: usize, inner_root: &String)
    -> (r: Option<String>)
    requires
        above <= ancestors@.len(),
    ensures
        match nested_decision(ancestors@, above as int, inner_root@) {
            Some(i) => r matches Some(p) && p@ == ancestors@[i].path@,
            None => r is None,
        },
{
    let mut k: usize = above;
    while k < ancestors.len()
        invariant
            above <= k <= ancestors@.len(),
            nested_decision(ancestors@, above as int, inner_root@) == nested_decision(
                ancestors@,
                k as int,
                inner_root@,
            ),
        decreases ancestors@.len() - k,
    {
        match &ancestors[k].manifest {
            None => {
                k = k + 1;
            },
            Some(m) => {
                if m.workspace.is_some() && !is_excluded_from_workspace(&ancestors[k], inner_root)
                {
                    return Some(ancestors[k].path.clone());
                }
                return None;
            },
        }
    }
    None
}

/// The member-map entry a member directory yields, once its manifest and
/// project section are known to exist.
pub open spec fn entry_of_dir(d: &MemberDir) -> (Seq<char>, Seq<char>, ManifestView) {
    match d.manifest {
        Some(ref m) => match m.project {
            Some(ref p) => (p.name@, d.root@, manifest_view(m)),
            None => (Seq::empty(), d.root@, manifest_view(m)),
        },
        None => (Seq::empty(), d.root@, arbitrary()),
    }
}

/// Insert an entry into the member map: a member of the same name is
/// replaced in place, a new name is appended.
pub open spec fn upsert_entry(
    acc: Seq<(Seq<char>, Seq<char>, ManifestView)>,
    e: (Seq<char>, Seq<char>, ManifestView),
) -> Seq<(Seq<char>, Seq<char>, ManifestView)> {
    if exists|i: int| 0 <= i < acc.len() && (#[trigger] acc[i]).0 == e.0 {
        acc.update(choose|i: int| 0 <= i < acc.len() && (#[trigger] acc[i]).0 == e.0, e)
    } else {
        acc.push(e)
    }
}

/// The member map after folding in the member directories from `i` on.
pub open spec fn members_from(
    dirs: Seq<MemberDir>,
    i: int,
    acc: Seq<(Seq<char>, Seq<char>, ManifestView)>,
) -> Seq<(Seq<char>, Seq<char>, ManifestView)>
    decreases dirs.len() - i,
{
    if i < 0 || i >= dirs.len() {
        acc
    } else {
        members_from(dirs, i + 1, upsert_entry(acc, entry_of_dir(&dirs[i])))
    }
}

/// The first member directory that lacks a manifest or a project section.
pub open spec fn first_bad_member(dirs: Seq<MemberDir>, i: int) -> Option<int>
    decreases dirs.len() - i,
{
    if i < 0 || i >= dirs.len() {
        None
    } else if dirs[i].manifest is None {
        Some(i)
    } else if !(match dirs[i].manifest {
        Some(ref m) => m.project is Some,
        None => false,
    }) {
        Some(i)
    } else {
        first_bad_member(dirs, i + 1)
    }
}

/// Replace the member of the same name, or append a new one.
fn upsert_member(
    packages: &mut Vec<(PackageName, WorkspaceMember)>,
    name: PackageName,
    member: WorkspaceMember,
)
    requires
        unique_names(member_entry_views(old(packages)@)),
    ensures
        member_entry_views(final(packages)@) == upsert_entry(
            member_entry_views(old(packages)@),
            (name@, member.spec_root(), member.spec_manifest()),
        ),
        unique_names(member_entry_views(final(packages)@)),
{
    let ghost oldv = member_entry_views(packages@);
    let mut i: usize = 0;
    while i < packages.len()
        invariant
            i <= packages@.len(),
            packages@ == old(packages)@,
            oldv == member_entry_views(packages@),
            unique_names(oldv),
            forall|j: int| 0 <= j < i ==> (#[trigger] oldv[j]).0 != name@,
        decreases packages@.len() - i,
    {
        let found = packages[i].0.same(&name);
        if found {
            let ghost e = (name@, member.spec_root(), member.spec_manifest());
            proof {
                assert(oldv[i as int] == (
                    packages@[i as int].0@,
                    packages@[i as int].1.spec_root(),
                    packages@[i as int].1.spec_manifest(),
                ));
                assert(oldv[i as int].0 == e.0);
                assert(exists|j: int| 0 <= j < oldv.len() && (#[trigger] oldv[j]).0 == e.0);
                let w = choose|j: int| 0 <= j < oldv.len() && (#[trigger] oldv[j]).0 == e.0;
                if w != i as int {
                    assert(oldv[w].0 == e.0);
                    if w < i as int {
                        assert(oldv[w].0 != oldv[i as int].0);
                    } else {
                        assert(oldv[i as int].0 != oldv[w].0);
                    }
                }
                assert(w == i as int);
            }
            packages.set(i, (name, member));
            proof {
                let newv = member_entry_views(packages@);
                assert forall|k: int| 0 <= k < newv.len() implies newv[k] == oldv.update(
                    i as int,
                    e,
                )[k] by {}
                assert(newv =~= oldv.update(i as int, e));
                assert(newv =~= upsert_entry(oldv, e));
            }
            return ;
        }
        i = i + 1;
    }
    let ghost e = (name@, member.spec_root(), member.spec_manifest());
    proof {
        assert(!(exists|j: int| 0 <= j < oldv.len() && (#[trigger] oldv[j]).0 == e.0));
    }
    packages.push((name, member));
    proof {
        let newv = member_entry_views(packages@);
        assert forall|k: int| 0 <= k < newv.len() implies newv[k] == oldv.push(e)[k] by {}
        assert(newv =~= oldv.push(e));
        assert(newv =~= upsert_entry(oldv, e));
    }
}

/// What building the member map around a chosen workspace root must yield.
/// `root_is_project` says the project is itself the root.
pub open spec fn build_outcome(
    project: &DirSnapshot,
    project_name: Seq<char>,
    root: &DirSnapshot,
    root_is_project: bool,
    r: Result<ProjectWorkspace, DiscoverError>,
) -> bool {
    let pm = match project.manifest {
        Some(ref m) => manifest_view(m),
        None => arbitrary(),
    };
    let init0 = seq![(project_name, project.path@, pm)];
    let init = if !root_is_project && has_project(root) {
        upsert_entry(
            init0,
            (
                match root.manifest {
                    Some(ref m) => match m.project {
                        Some(ref p) => p.name@,
                        None => Seq::empty(),
                    },
                    None => Seq::empty(),
                },
                root.path@,
                match root.manifest {
                    Some(ref m) => manifest_view(m),
                    None => arbitrary(),
                },
            ),
        )
    } else {
        init0
    };
    match first_bad_member(root.member_dirs@, 0) {
        Some(j) => match r {
            Err(e) => if root.member_dirs@[j].manifest is None {
                e matches DiscoverError::Io(p) && p@ == root.member_dirs@[j].root@
            } else {
                e matches DiscoverError::MissingProject(p) && p@ == root.member_dirs@[j].root@
            },
            Ok(_) => false,
        },
        None => r matches Ok(pw) && pw.spec_project_root() == project.path@
            && pw.spec_project_name() == project_name && pw.spec_workspace().spec_root()
            == root.path@ && pw.spec_workspace().spec_packages() == members_from(
            root.member_dirs@,
            0,
            init,
        ) && pw.spec_workspace().spec_sources() == (match root.manifest {
            Some(ref m) => match m.sources {
                Some(ref s) => source_views(s@),
                None => Seq::empty(),
            },
            None => Seq::empty(),
        }) && unique_names(pw.spec_workspace().spec_packages()),
    }
}

/// What discovery from a project must yield, walking `ancestors[above..]`
/// for an enclosing workspace.
pub open spec fn project_ws_outcome(
    project: &DirSnapshot,
    project_name: Seq<char>,
    ancestors: Seq<DirSnapshot>,
    above: int,
    r: Result<ProjectWorkspace, DiscoverError>,
) -> bool {
    let pm = match project.manifest {
        Some(ref m) => manifest_view(m),
        None => arbitrary(),
    };
    if has_workspace(project) {
        build_outcome(project, project_name, project, true, r)
    } else {
        match ws_decision(ancestors, above, project.path@) {
            WsOutcome::Standalone => r matches Ok(pw) && pw.spec_project_root() == project.path@
                && pw.spec_project_name() == project_name && pw.spec_workspace().spec_root()
                == project.path@ && pw.spec_workspace().spec_packages() == seq![
                (project_name, project.path@, pm),
            ] && pw.spec_workspace().spec_sources() == Seq::<
                (Seq<char>, bool, Option<bool>),
            >::empty(),
            WsOutcome::RootAt(i) => build_outcome(project, project_name, &ancestors[i], false, r),
            WsOutcome::Undeclared(i) => r matches Err(e) && (e matches
                DiscoverError::MissingProject(p) && p@ == ancestors[i].path@),
        }
    }
}

impl ProjectWorkspace {
    pub closed spec fn spec_project_root(&self) -> Seq<char> {
        self.project_root@
    }

    pub closed spec fn spec_project_name(&self) -> Seq<char> {
        self.project_name@
    }

    pub closed spec fn spec_workspace(&self) -> &Workspace {
        &self.workspace
    }

    /// The directory of the nearest manifest with a project section.
    pub fn project_root(&self) -> (r: &String)
        ensures
            r@ == self.spec_project_root(),
    {
        &self.project_root
    }

    /// The name of the project's package.
    pub fn project_name(&self) -> (r: &PackageName)
        ensures
            r@ == self.spec_project_name(),
    {
        &self.project_name
    }

    /// The enclosing workspace, possibly the project alone.
    pub fn workspace(&self) -> (r: &Workspace)
        ensures
            r == self.spec_workspace(),
    {
        &self.workspace
    }

    /// Find the current project and workspace: the nearest directory whose
    /// manifest declares a project section is the project root; when no
    /// ancestor's manifest declares one, there is no project at all.
    pub fn discover(ancestors: &Vec<DirSnapshot>) -> (r: Result<ProjectWorkspace, DiscoverError>)
        ensures
            match first_project_manifest(ancestors@, 0) {
                None => r matches Err(e) && e is MissingPyprojectToml,
                Some(k) => project_root_outcome(&ancestors@[k], ancestors@, k + 1, r),
            },
    {
        let mut k: usize = 0;
        while k < ancestors.len()
            invariant
                k <= ancestors@.len(),
                first_project_manifest(ancestors@, 0) == first_project_manifest(
                    ancestors@,
                    k as int,
                ),
            decreases ancestors@.len() - k,
        {
            let found = match &ancestors[k].manifest {
                Some(m) => m.project.is_some(),
                None => false,
            };
            if found {
                return Self::from_project_root(ancestors, k);
            }
            k = k + 1;
        }
        Err(DiscoverError::MissingPyprojectToml)
    }

    /// Discover from a known project root, `ancestors[at]`.
    pub fn from_project_root(ancestors: &Vec<DirSnapshot>, at: usize) -> (r: Result<
        ProjectWorkspace,
        DiscoverError,
    >)
        requires
            at < ancestors@.len(),
        ensures
            project_root_outcome(&ancestors@[at as int], ancestors@, at + 1, r),
    {
        let dir = &ancestors[at];
        match &dir.manifest {
            None => Err(DiscoverError::Io(dir.path.clone())),
            Some(m) => {
                match &m.project {
                    None => Err(DiscoverError::MissingProject(dir.path.clone())),
                    Some(p) => {
                        let name = p.name.dup();
                        Self::from_project(ancestors, at, &name)
                    },
                }
            },
        }
    }

    /// Build the project's workspace: the project itself when its manifest
    /// declares one, else whatever the walk upward finds.
    pub fn from_project(ancestors: &Vec<DirSnapshot>, at: usize, project_name: &PackageName) -> (r:
        Result<ProjectWorkspace, DiscoverError>)
        requires
            at < ancestors@.len(),
            ancestors@[at as int].manifest is Some,
        ensures
            project_ws_outcome(&ancestors@[at as int], project_name@, ancestors@, at + 1, r),
    {
        let project = &ancestors[at];
        let explicit = match &project.manifest {
            Some(m) => m.workspace.is_some(),
            None => false,
        };
        if explicit {
            return Self::build(project, project_name, project, true);
        }
        let n = ancestors.len();
        match find_workspace(ancestors, at + 1, &project.path) {
            Err(e) => Err(e),
            Ok(None) => {
                // The project and the workspace root are identical.
                let m = match &project.manifest {
                    Some(m) => m,
                    None => {
                        proof {
                            assert(false);
                        }
                        return Err(DiscoverError::MissingPyprojectToml);
                    },
                };
                let mut packages: Vec<(PackageName, WorkspaceMember)> = Vec::new();
                packages.push(
                    (
                        project_name.dup(),
                        WorkspaceMember { root: project.path.clone(), pyproject_toml: m.dup() },
                    ),
                );
                proof {
                    assert(member_entry_views(packages@) =~= seq![
                        (project_name@, project.path@, manifest_view(m)),
                    ]);
                }
                let sources: Vec<SourceDecl> = Vec::new();
                proof {
                    assert(source_views(sources@) =~= Seq::<
                        (Seq<char>, bool, Option<bool>),
                    >::empty());
                }
                Ok(
                    ProjectWorkspace {
                        project_root: project.path.clone(),
                        project_name: project_name.dup(),
                        workspace: Workspace { root: project.path.clone(), packages, sources },
                    },
                )
            },
            Ok(Some(i)) => Self::build(project, project_name, &ancestors[i], false),
        }
    }

    /// Build the member map around a chosen workspace root.
    fn build(
        project: &DirSnapshot,
        project_name: &PackageName,
        root: &DirSnapshot,
        root_is_project: bool,
    ) -> (r: Result<ProjectWorkspace, DiscoverError>)
        requires
            project.manifest is Some,
            root.manifest is Some,
        ensures
            build_outcome(project, project_name@, root, root_is_project, r),
    {
        let pm = match &project.manifest {
            Some(m) => m,
            None => {
                proof {
                    assert(false);
                }
                return Err(DiscoverError::MissingPyprojectToml);
            },
        };
        let rm = match &root.manifest {
            Some(m) => m,
            None => {
                proof {
                    assert(false);
                }
                return Err(DiscoverError::MissingPyprojectToml);
            },
        };
        let mut packages: Vec<(PackageName, WorkspaceMember)> = Vec::new();
        packages.push(
            (
                project_name.dup(),
                WorkspaceMember { root: project.path.clone(), pyproject_toml: pm.dup() },
            ),
        );
        proof {
            assert(member_entry_views(packages@) =~= seq![
                (project_name@, project.path@, manifest_view(pm)),
            ]);
        }
        if !root_is_project {
            match &rm.project {
                Some(rp) => {
                    upsert_member(
                        &mut packages,
                        rp.name.dup(),
                        WorkspaceMember { root: root.path.clone(), pyproject_toml: rm.dup() },
                    );
                },
                None => {},
            }
        }
        let ghost init = member_entry_views(packages@);
        let mut j: usize = 0;
        while j < root.member_dirs.len()
            invariant
                j <= root.member_dirs@.len(),
                unique_names(member_entry_views(packages@)),
                members_from(root.member_dirs@, 0, init) == members_from(
                    root.member_dirs@,
                    j as int,
                    member_entry_views(packages@),
                ),
                first_bad_member(root.member_dirs@, 0) == first_bad_member(
                    root.member_dirs@,
                    j as int,
                ),
            decreases root.member_dirs@.len() - j,
        {
            let d = &root.member_dirs[j];
            match &d.manifest {
                None => {
                    return Err(DiscoverError::Io(d.root.clone()));
                },
                Some(dm) => {
                    match &dm.project {
                        None => {
                            return Err(DiscoverError::MissingProject(d.root.clone()));
                        },
                        Some(dp) => {
                            let ghost before = member_entry_views(packages@);
                            upsert_member(
                                &mut packages,
                                dp.name.dup(),
                                WorkspaceMember { root: d.root.clone(), pyproject_toml: dm.dup() },
                            );
                            proof {
                                assert(entry_of_dir(&root.member_dirs@[j as int]) == (
                                    dp.name@,
                                    d.root@,
                                    manifest_view(dm),
                                ));
                                assert(member_entry_views(packages@) == upsert_entry(
                                    before,
                                    entry_of_dir(&root.member_dirs@[j as int]),
                                ));
                                assert(members_from(root.member_dirs@, j as int, before)
                                    == members_from(
                                    root.member_dirs@,
                                    j + 1,
                                    member_entry_views(packages@),
                                ));
                                assert(first_bad_member(root.member_dirs@, j as int)
                                    == first_bad_member(root.member_dirs@, j + 1));
                            }
                        },
                    }
                },
            }
            j = j + 1;
        }
        let sources = match &rm.sources {
            Some(s) => dup_sources(s),
            None => {
                let v: Vec<SourceDecl> = Vec::new();
                proof {
                    assert(source_views(v@) =~= Seq::<(Seq<char>, bool, Option<bool>)>::empty());
                }
                v
            },
        };
        Ok(
            ProjectWorkspace {
                project_root: project.path.clone(),
                project_name: project_name.dup(),
                workspace: Workspace { root: root.path.clone(), packages, sources },
            },
        )
    }
}

/// The first directory of the chain whose manifest declares a project.
pub open spec fn first_project_manifest(dirs: Seq<DirSnapshot>, i: int) -> Option<int>
    decreases dirs.len() - i,
{
    if i < 0 || i >= dirs.len() {
        None
    } else if has_project(&dirs[i]) {
        Some(i)
    } else {
        first_project_manifest(dirs, i + 1)
    }
}

/// What discovery from a known project-root directory must yield.
pub open spec fn project_root_outcome(
    dir: &DirSnapshot,
    ancestors: Seq<DirSnapshot>,
    above: int,
    r: Result<ProjectWorkspace, DiscoverError>,
) -> bool {
    match dir.manifest {
        None => r matches Err(e) && (e matches DiscoverError::Io(p) && p@ == dir.path@),
        Some(ref m) => match m.project {
            None => r matches Err(e) && (e matches DiscoverError::MissingProject(p) && p@
                == dir.path@),
            Some(ref p) => project_ws_outcome(dir, p.name@, ancestors, above, r),
        },
    }
}


/// The set of member names an entry list holds.
pub open spec fn entry_names(entries: Seq<(Seq<char>, Seq<char>, ManifestView)>) -> Set<
    Seq<char>,
> {
    entries.map_values(|t: (Seq<char>, Seq<char>, ManifestView)| t.0).to_set()
}

/// The set of member names the member directories from `i` on declare.
pub open spec fn dir_names(dirs: Seq<MemberDir>, i: int) -> Set<Seq<char>>
    decreases dirs.len() - i,
{
    if i < 0 || i >= dirs.len() {
        Set::empty()
    } else {
        dir_names(dirs, i + 1).insert(entry_of_dir(&dirs[i]).0)
    }
}

/// Inserting an entry adds exactly its name to the member-name set.
proof fn lemma_upsert_names(
    acc: Seq<(Seq<char>, Seq<char>, ManifestView)>,
    e: (Seq<char>, Seq<char>, ManifestView),
)
    ensures
        entry_names(upsert_entry(acc, e)) == entry_names(acc).insert(e.0),
{
    broadcast use vstd::seq_lib::seq_to_set_is_finite;
    broadcast use vstd::set::group_set_axioms;

    let u = upsert_entry(acc, e);
    let lhs = entry_names(u);
    let rhs = entry_names(acc).insert(e.0);
    assert forall|x: Seq<char>| lhs.contains(x) implies rhs.contains(x) by {
        let names = u.map_values(|t: (Seq<char>, Seq<char>, ManifestView)| t.0);
        let j = choose|j: int| 0 <= j < names.len() && names[j] == x;
        if exists|i: int| 0 <= i < acc.len() && (#[trigger] acc[i]).0 == e.0 {
            let w = choose|i: int| 0 <= i < acc.len() && (#[trigger] acc[i]).0 == e.0;
            if j == w {
                assert(u[j] == e);
            } else {
                assert(u[j] == acc[j]);
                assert(acc.map_values(|t: (Seq<char>, Seq<char>, ManifestView)| t.0)[j] == x);
                assert(entry_names(acc).contains(x));
            }
        } else {
            if j < acc.len() {
                assert(u[j] == acc[j]);
                assert(acc.map_values(|t: (Seq<char>, Seq<char>, ManifestView)| t.0)[j] == x);
                assert(entry_names(acc).contains(x));
            } else {
                assert(u[j] == e);
            }
        }
    }
    assert forall|x: Seq<char>| rhs.contains(x) implies lhs.contains(x) by {
        let names = u.map_values(|t: (Seq<char>, Seq<char>, ManifestView)| t.0);
        if x == e.0 {
            if exists|i: int| 0 <= i < acc.len() && (#[trigger] acc[i]).0 == e.0 {
                let w = choose|i: int| 0 <= i < acc.len() && (#[trigger] acc[i]).0 == e.0;
                assert(u[w] == e);
                assert(names[w] == x);
            } else {
                assert(u[acc.len() as int] == e);
                assert(names[acc.len() as int] == x);
            }
        } else {
            let accnames = acc.map_values(|t: (Seq<char>, Seq<char>, ManifestView)| t.0);
            let j = choose|j: int| 0 <= j < accnames.len() && accnames[j] == x;
            if exists|i: int| 0 <= i < acc.len() && (#[trigger] acc[i]).0 == e.0 {
                let w = choose|i: int| 0 <= i < acc.len() && (#[trigger] acc[i]).0 == e.0;
                assert(j != w);
                assert(u[j] == acc[j]);
                assert(names[j] == x);
            } else {
                assert(u[j] == acc[j]);
                assert(names[j] == x);
            }
        }
    }
    assert(lhs =~= rhs);
}

/// Folding the member directories in adds exactly their names.
proof fn lemma_fold_names(
    dirs: Seq<MemberDir>,
    i: int,
    acc: Seq<(Seq<char>, Seq<char>, ManifestView)>,
)
    ensures
        entry_names(members_from(dirs, i, acc)) == entry_names(acc).union(dir_names(dirs, i)),
    decreases dirs.len() - i,
{
    broadcast use vstd::set::group_set_axioms;

    if i < 0 || i >= dirs.len() {
        assert(entry_names(acc).union(Set::empty()) =~= entry_names(acc));
    } else {
        let e = entry_of_dir(&dirs[i]);
        lemma_upsert_names(acc, e);
        lemma_fold_names(dirs, i + 1, upsert_entry(acc, e));
        assert(entry_names(acc).insert(e.0).union(dir_names(dirs, i + 1)) =~= entry_names(
            acc,
        ).union(dir_names(dirs, i + 1).insert(e.0)));
    }
}

/// Workspace round-trip: discovery from any member of one workspace yields
/// the same workspace root and the same member-name set. The two builds
/// share the root snapshot; each project, like every member, must itself
/// be named by the root's member directories.
pub proof fn lemma_workspace_round_trip(
    p1: &DirSnapshot,
    n1: Seq<char>,
    r1: Result<ProjectWorkspace, DiscoverError>,
    p2: &DirSnapshot,
    n2: Seq<char>,
    r2: Result<ProjectWorkspace, DiscoverError>,
    root: &DirSnapshot,
)
    requires
        build_outcome(p1, n1, root, false, r1),
        build_outcome(p2, n2, root, false, r2),
        r1 is Ok,
        r2 is Ok,
        dir_names(root.member_dirs@, 0).contains(n1),
        dir_names(root.member_dirs@, 0).contains(n2),
    ensures
        ({
            let pw1 = r1->Ok_0;
            let pw2 = r2->Ok_0;
            &&& pw1.spec_workspace().spec_root() == pw2.spec_workspace().spec_root()
            &&& entry_names(pw1.spec_workspace().spec_packages()) == entry_names(
                pw2.spec_workspace().spec_packages(),
            )
        }),
{
    broadcast use vstd::set::group_set_axioms;
    broadcast use vstd::seq_lib::seq_to_set_is_finite;

    let pw1 = r1->Ok_0;
    let pw2 = r2->Ok_0;
    let dirs = root.member_dirs@;
    let d = dir_names(dirs, 0);
    let pm1 = match p1.manifest {
        Some(ref m) => manifest_view(m),
        None => arbitrary(),
    };
    let pm2 = match p2.manifest {
        Some(ref m) => manifest_view(m),
        None => arbitrary(),
    };
    let init01 = seq![(n1, p1.path@, pm1)];
    let init02 = seq![(n2, p2.path@, pm2)];
    assert(entry_names(init01) =~= Set::empty().insert(n1)) by {
        let names = init01.map_values(|t: (Seq<char>, Seq<char>, ManifestView)| t.0);
        assert(names[0] == n1);
        assert forall|x: Seq<char>| entry_names(init01).contains(x) implies x == n1 by {
            let j = choose|j: int| 0 <= j < names.len() && names[j] == x;
        }
        assert(names.to_set().contains(n1));
    }
    assert(entry_names(init02) =~= Set::empty().insert(n2)) by {
        let names = init02.map_values(|t: (Seq<char>, Seq<char>, ManifestView)| t.0);
        assert(names[0] == n2);
        assert forall|x: Seq<char>| entry_names(init02).contains(x) implies x == n2 by {
            let j = choose|j: int| 0 <= j < names.len() && names[j] == x;
        }
        assert(names.to_set().contains(n2));
    }
    if has_project(root) {
        let rn = match root.manifest {
            Some(ref m) => match m.project {
                Some(ref p) => p.name@,
                None => Seq::empty(),
            },
            None => Seq::empty(),
        };
        let rm = match root.manifest {
            Some(ref m) => manifest_view(m),
            None => arbitrary(),
        };
        lemma_upsert_names(init01, (rn, root.path@, rm));
        lemma_upsert_names(init02, (rn, root.path@, rm));
        lemma_fold_names(dirs, 0, upsert_entry(init01, (rn, root.path@, rm)));
        lemma_fold_names(dirs, 0, upsert_entry(init02, (rn, root.path@, rm)));
        assert(entry_names(pw1.spec_workspace().spec_packages()) =~= entry_names(
            pw2.spec_workspace().spec_packages(),
        ));
    } else {
        lemma_fold_names(dirs, 0, init01);
        lemma_fold_names(dirs, 0, init02);
        assert(entry_names(pw1.spec_workspace().spec_packages()) =~= entry_names(
            pw2.spec_workspace().spec_packages(),
        ));
    }
}


/// Workspace round-trip from discovery itself: two walks whose project
/// roots lie under the same enclosing workspace — neither project is its
/// own root, each walk settles on the shared root snapshot, and each
/// project is named by the root's member directories — yield the same
/// workspace root and the same member-name set.
pub proof fn lemma_discover_round_trip(
    c1: Seq<DirSnapshot>,
    k1: int,
    r1: Result<ProjectWorkspace, DiscoverError>,
    c2: Seq<DirSnapshot>,
    k2: int,
    r2: Result<ProjectWorkspace, DiscoverError>,
    root: &DirSnapshot,
)
    requires
        first_project_manifest(c1, 0) == Some(k1),
        project_root_outcome(&c1[k1], c1, k1 + 1, r1),
        first_project_manifest(c2, 0) == Some(k2),
        project_root_outcome(&c2[k2], c2, k2 + 1, r2),
        0 <= k1 < c1.len(),
        0 <= k2 < c2.len(),
        !has_workspace(&c1[k1]),
        !has_workspace(&c2[k2]),
        exists|i: int| ws_decision(c1, k1 + 1, c1[k1].path@) == WsOutcome::RootAt(i) && 0 <= i
            < c1.len() && #[trigger] c1[i] == *root,
        exists|i: int| ws_decision(c2, k2 + 1, c2[k2].path@) == WsOutcome::RootAt(i) && 0 <= i
            < c2.len() && #[trigger] c2[i] == *root,
        r1 is Ok,
        r2 is Ok,
        ({
            match c1[k1].manifest {
                Some(m) => match m.project {
                    Some(p) => dir_names(root.member_dirs@, 0).contains(p.name@),
                    None => false,
                },
                None => false,
            }
        }),
        ({
            match c2[k2].manifest {
                Some(m) => match m.project {
                    Some(p) => dir_names(root.member_dirs@, 0).contains(p.name@),
                    None => false,
                },
                None => false,
            }
        }),
    ensures
        ({
            let pw1 = r1->Ok_0;
            let pw2 = r2->Ok_0;
            &&& pw1.spec_workspace().spec_root() == pw2.spec_workspace().spec_root()
            &&& entry_names(pw1.spec_workspace().spec_packages()) == entry_names(
                pw2.spec_workspace().spec_packages(),
            )
        }),
{
    let i1 = choose|i: int|
        ws_decision(c1, k1 + 1, c1[k1].path@) == WsOutcome::RootAt(i) && 0 <= i < c1.len() && (
        #[trigger] c1[i]) == *root;
    let i2 = choose|i: int|
        ws_decision(c2, k2 + 1, c2[k2].path@) == WsOutcome::RootAt(i) && 0 <= i < c2.len() && (
        #[trigger] c2[i]) == *root;
    let n1 = match c1[k1].manifest {
        Some(m) => match m.project {
            Some(p) => p.name@,
            None => Seq::empty(),
        },
        None => Seq::empty(),
    };
    let n2 = match c2[k2].manifest {
        Some(m) => match m.project {
            Some(p) => p.name@,
            None => Seq::empty(),
        },
        None => Seq::empty(),
    };
    assert(build_outcome(&c1[k1], n1, &c1[i1], false, r1));
    assert(build_outcome(&c2[k2], n2, &c2[i2], false, r2));
    assert(build_outcome(&c1[k1], n1, root, false, r1));
    assert(build_outcome(&c2[k2], n2, root, false, r2));
    lemma_workspace_round_trip(&c1[k1], n1, r1, &c2[k2], n2, r2, root);
}

} // verus!
