use distsync::discovery::{
    DependencyDecl, DirSnapshot, Manifest, MemberDir, ProjectSection, ProjectWorkspace,
    SourceDecl, WorkspaceSection,
};
use distsync::dist::{BuiltDist, Dist, LocalEditable, SourceDist};
use distsync::dist::{RegistryBuiltDist, RegistryBuiltWheel};
use distsync::error::Error;
use distsync::executor::{collect_outcomes, Demand, Environment, FetchOutcome, InFlight, Stage, SyncRun};
use distsync::file::{File, FileLocation};
use distsync::filename::WheelFilename;
use distsync::id::DistributionId;
use distsync::installed::{InstalledDist, InstalledOrigin};
use distsync::name::PackageName;
use distsync::plan::{plan, CacheEntry, Reinstall};
use distsync::report::{order_events, ChangeEvent, ChangeEventKind};
use distsync::requirement::{Requirement, VersionOrUrl};
use distsync::specification::{
    PackageFilter, PyprojectContent, PyprojectState, RequirementsSource,
    RequirementsSpecification, RequirementsTxtContent, SourceRole, AggregateError,
};
use distsync::url::Url;
use distsync::version::Version;

fn name(s: &str) -> PackageName {
    PackageName::parse(s).unwrap()
}

fn url_at(host: &str, segments: &[&str], verbatim: &str) -> Url {
    Url {
        scheme: "https".to_string(),
        userinfo: String::new(),
        host: host.to_string(),
        port: None,
        segments: segments.iter().map(|s| s.to_string()).collect(),
        fragment: None,
        verbatim: verbatim.to_string(),
    }
}

fn project_manifest(
    pkg: &str,
    deps: Vec<DependencyDecl>,
    workspace: Option<WorkspaceSection>,
    sources: Option<Vec<SourceDecl>>,
) -> Manifest {
    Manifest {
        project: Some(ProjectSection {
            name: name(pkg),
            dependencies: deps,
            used_extras: Vec::new(),
        }),
        workspace,
        sources,
    }
}

fn editable_dep(pkg: &str, path: &str) -> DependencyDecl {
    let u = url_at("workspace.invalid", &[pkg], path);
    DependencyDecl {
        requirement: Requirement {
            name: name(pkg),
            version_or_url: VersionOrUrl::Any,
            extras: Vec::new(),
            marker: None,
            origin: None,
        },
        editable: Some(LocalEditable { url: u, path: path.to_string() }),
    }
}

fn registry_flask() -> Dist {
    let filename = WheelFilename::parse("flask-3.0.0-py3-none-any.whl").unwrap();
    let file = File {
        filename: "flask-3.0.0-py3-none-any.whl".to_string(),
        hashes: vec!["sha256:0123".to_string()],
        url: FileLocation::AbsoluteUrl {
            url: "https://example.org/flask-3.0.0-py3-none-any.whl".to_string(),
        },
        size: Some(1),
        yanked: None,
    };
    let index = url_at("pypi.invalid", &["simple"], "https://pypi.invalid/simple");
    Dist::Built(BuiltDist::Registry(RegistryBuiltDist {
        wheels: vec![RegistryBuiltWheel { filename, file, index }],
        best_wheel_index: 0,
        sdist: None,
    }))
}

// One source `flask==3.0.0`, empty environment, registry offers a wheel:
// the plan holds one remote; after the run the environment holds exactly
// `flask 3.0.0` and the report one addition.
#[test]
fn single_remote_requirement() {
    let desired = vec![registry_flask()];
    let p = plan(
        desired,
        Vec::new(),
        &Reinstall::NoPackages,
        &PackageFilter::NoPackage,
        false,
        &Vec::new(),
        true,
    );
    assert_eq!(p.remote.len(), 1);
    assert_eq!(p.cached.len(), 0);
    assert_eq!(p.reinstalls.len(), 0);
    assert_eq!(p.extraneous.len(), 0);

    // Apply the plan through the staged run.
    let mut run = SyncRun::start();
    let mut env = Environment::from_site(Vec::new());
    run.removals_done();
    run.fetches_done();
    assert!(matches!(run.stage(), Stage::Links));
    env.install(InstalledDist {
        name: name("flask"),
        version: Version::parse("3.0.0").unwrap(),
        path: "/site/flask".to_string(),
        origin: InstalledOrigin::Registry,
    });
    run.links_done();
    run.finish();
    assert!(env.has(&name("flask")));
    assert_eq!(env.entries().len(), 1);
    assert_eq!(env.entries()[0].version.as_str(), "3.0.0");

    let events = order_events(vec![ChangeEvent {
        name: "flask".to_string(),
        version_text: "==3.0.0".to_string(),
        kind: ChangeEventKind::Added,
    }]);
    assert_eq!(events.len(), 1);
    assert!(matches!(events[0].kind, ChangeEventKind::Added));
    assert_eq!(events[0].name, "flask");
}

// An editable request replacing a non-editable install: one reinstall of
// the old install and one fetch of the editable directory.
#[test]
fn editable_replaces_noneditable() {
    let u = url_at("files.invalid", &["my-lib"], "file:///work/my-lib");
    let desired = vec![Dist::Source(SourceDist::Directory(distsync::dist::DirectorySourceDist {
        name: name("my-lib"),
        url: u,
        path: "/work/my-lib".to_string(),
        editable: true,
    }))];
    let site = vec![InstalledDist {
        name: name("my-lib"),
        version: Version::parse("0.1.0").unwrap(),
        path: "/site/my-lib".to_string(),
        origin: InstalledOrigin::Registry,
    }];
    let p = plan(
        desired,
        site,
        &Reinstall::NoPackages,
        &PackageFilter::NoPackage,
        false,
        &Vec::new(),
        true,
    );
    assert_eq!(p.reinstalls.len(), 1);
    assert_eq!(p.reinstalls[0].version.as_str(), "0.1.0");
    assert_eq!(p.remote.len(), 1);
    assert_eq!(p.cached.len(), 0);
    assert_eq!(p.extraneous.len(), 0);
}

// The plan partition: a satisfied install is skipped, an unrequested one
// is extraneous under strict sync, a cached artifact is used, and the
// classes stay apart.
#[test]
fn plan_partition_classes() {
    let flask = registry_flask();
    let flask_id = flask.distribution_id();
    let desired = vec![flask];
    let site = vec![InstalledDist {
        name: name("stale"),
        version: Version::parse("1.0").unwrap(),
        path: "/site/stale".to_string(),
        origin: InstalledOrigin::Registry,
    }];
    let cache = vec![CacheEntry {
        id: flask_id,
        name: name("flask"),
        version: Version::parse("3.0.0").unwrap(),
        path: "/cache/flask".to_string(),
        hash_ok: true,
        freshness: 7,
    }];
    let p = plan(
        desired,
        site,
        &Reinstall::NoPackages,
        &PackageFilter::NoPackage,
        false,
        &cache,
        true,
    );
    assert_eq!(p.cached.len(), 1);
    assert_eq!(p.cached[0].name.as_str(), "flask");
    assert_eq!(p.cached[0].path, "/cache/flask");
    assert_eq!(p.remote.len(), 0);
    assert_eq!(p.extraneous.len(), 1);
    assert_eq!(p.extraneous[0].name.as_str(), "stale");
    // Disjointness over names across the classes.
    assert!(p.cached.iter().all(|c| c.name.as_str() != p.extraneous[0].name.as_str()));
}

// A satisfied install is skipped entirely.
#[test]
fn satisfied_install_is_skipped() {
    let desired = vec![registry_flask()];
    let site = vec![InstalledDist {
        name: name("flask"),
        version: Version::parse("3.0.0").unwrap(),
        path: "/site/flask".to_string(),
        origin: InstalledOrigin::Registry,
    }];
    let p = plan(
        desired,
        site,
        &Reinstall::NoPackages,
        &PackageFilter::NoPackage,
        false,
        &Vec::new(),
        true,
    );
    assert_eq!(p.remote.len(), 0);
    assert_eq!(p.cached.len(), 0);
    assert_eq!(p.reinstalls.len(), 0);
    assert_eq!(p.extraneous.len(), 0);
}

// Fifty demands with one resource identity: exactly one fetch, the others
// await that outcome.
#[test]
fn at_most_once_fetch() {
    let mut inflight = InFlight::new();
    let mut fetches = 0;
    for _ in 0..50 {
        if matches!(inflight.demand("git+https://example.org/repo.git"), Demand::Fetch) {
            fetches += 1;
        }
    }
    assert_eq!(fetches, 1);
    // A different identity fetches on its own.
    assert!(matches!(inflight.demand("https://example.org/other"), Demand::Fetch));
}

// The environment never holds two installs of one name: the removal
// precedes the conflicting install.
#[test]
fn monotone_environment() {
    let mut env = Environment::from_site(vec![InstalledDist {
        name: name("my-lib"),
        version: Version::parse("0.1.0").unwrap(),
        path: "/site/my-lib".to_string(),
        origin: InstalledOrigin::Registry,
    }]);
    assert!(env.has(&name("my-lib")));
    env.remove(&name("my-lib"));
    assert!(!env.has(&name("my-lib")));
    env.install(InstalledDist {
        name: name("my-lib"),
        version: Version::parse("0.2.0").unwrap(),
        path: "/site/my-lib".to_string(),
        origin: InstalledOrigin::Registry,
    });
    assert!(env.has(&name("my-lib")));
    assert_eq!(env.entries().len(), 1);
}

// A failed unit never blocks an independent unit.
#[test]
fn error_locality() {
    let outcomes = vec![
        FetchOutcome::Ready("/cache/a".to_string()),
        FetchOutcome::Failed("network fault".to_string()),
        FetchOutcome::Ready("/cache/c".to_string()),
    ];
    let (ready, failed) = collect_outcomes(outcomes);
    assert_eq!(ready.len(), 2);
    assert_eq!(ready[0].0, 0);
    assert_eq!(ready[1].0, 2);
    assert_eq!(failed.len(), 1);
    assert_eq!(failed[0].0, 1);
    assert_eq!(failed[0].1, "network fault");
}

// Two sources declaring different canonical index locations are fatal.
#[test]
fn multiple_index_urls_are_fatal() {
    let txt = |index_host: &str| RequirementsTxtContent {
        requirements: Vec::new(),
        constraints: Vec::new(),
        editables: Vec::new(),
        index_url: Some(url_at(index_host, &["simple"], index_host)),
        extra_index_urls: Vec::new(),
        no_index: false,
        find_links: Vec::new(),
        no_binary: PackageFilter::NoPackage,
        no_build: PackageFilter::NoPackage,
    };
    let requirements = vec![RequirementsSource::RequirementsTxt(txt("one.invalid"))];
    let constraints = vec![RequirementsSource::RequirementsTxt(txt("two.invalid"))];
    let r = RequirementsSpecification::from_sources(&requirements, &constraints, &Vec::new());
    assert!(matches!(r, Err(AggregateError::MultipleIndexUrls { .. })));
    // The same canonical location twice is fine.
    let requirements = vec![RequirementsSource::RequirementsTxt(txt("one.invalid"))];
    let constraints = vec![RequirementsSource::RequirementsTxt(txt("one.invalid"))];
    let r = RequirementsSpecification::from_sources(&requirements, &constraints, &Vec::new());
    assert!(r.is_ok());
}

// An unnamed requirement may not stand as a constraint.
#[test]
fn unnamed_constraint_is_fatal() {
    let constraints = vec![RequirementsSource::SourceTree("/work/tree".to_string())];
    let r = RequirementsSpecification::from_sources(&Vec::new(), &constraints, &Vec::new());
    assert!(matches!(r, Err(AggregateError::UnnamedConstraint { .. })));
}

// A workspace with members a, b, c where a depends editable on b and b
// editable on c: aggregating a's manifest gathers b and c as editables
// and no ordinary requirement among those names.
#[test]
fn editable_chain_through_workspace() {
    let ws_root = "/ws".to_string();
    let root_manifest = Manifest {
        project: Some(ProjectSection {
            name: name("a"),
            dependencies: vec![editable_dep("b", "/ws/b")],
            used_extras: Vec::new(),
        }),
        workspace: Some(WorkspaceSection {
            members: vec!["*".to_string()],
            exclude: Vec::new(),
        }),
        sources: None,
    };
    let members = vec![
        MemberDir {
            root: "/ws".to_string(),
            manifest: Some(project_manifest("a", vec![editable_dep("b", "/ws/b")], None, None)),
        },
        MemberDir {
            root: "/ws/b".to_string(),
            manifest: Some(project_manifest("b", vec![editable_dep("c", "/ws/c")], None, None)),
        },
        MemberDir {
            root: "/ws/c".to_string(),
            manifest: Some(project_manifest("c", Vec::new(), None, None)),
        },
    ];
    let snapshot = DirSnapshot {
        path: ws_root.clone(),
        manifest: Some(root_manifest),
        exclude_roots: Vec::new(),
        member_dirs: members,
    };
    let pw = ProjectWorkspace::discover(&vec![snapshot]).unwrap();
    let spec = RequirementsSpecification::from_source(&RequirementsSource::PyprojectToml(
        PyprojectContent { path: "/ws/pyproject.toml".to_string(), state: PyprojectState::Discovered(pw) },
    ))
    .unwrap();
    let mut editable_paths: Vec<String> =
        spec.editables.iter().map(|e| e.path.clone()).collect();
    editable_paths.sort();
    assert_eq!(editable_paths, vec!["/ws/b".to_string(), "/ws/c".to_string()]);
    assert!(spec.requirements.is_empty());
    assert_eq!(spec.project.as_ref().unwrap().as_str(), "a");
}

// Merging a specification with itself yields it back.
#[test]
fn aggregator_idempotence() {
    let build = || {
        let entry = distsync::requirement::RequirementEntry {
            requirement: distsync::requirement::UnresolvedRequirement::Named(Requirement {
                name: name("flask"),
                version_or_url: VersionOrUrl::Version("==3.0.0".to_string()),
                extras: Vec::new(),
                marker: None,
                origin: None,
            }),
            hashes: Vec::new(),
        };
        let mut s = RequirementsSpecification::new_empty();
        s.requirements.push(entry);
        s.extras.push("dev".to_string());
        s.no_index = true;
        s
    };
    let merged = build().merge(build()).unwrap();
    assert_eq!(merged.requirements.len(), 1);
    assert_eq!(merged.extras, vec!["dev".to_string()]);
    assert!(merged.no_index);
}

// A bare requirement source wraps one requirement; absorbing it into the
// accumulated specification concatenates.
#[test]
fn absorb_roles() {
    let entry = distsync::requirement::RequirementEntry {
        requirement: distsync::requirement::UnresolvedRequirement::Named(Requirement {
            name: name("flask"),
            version_or_url: VersionOrUrl::Version("==3.0.0".to_string()),
            extras: Vec::new(),
            marker: None,
            origin: None,
        }),
        hashes: Vec::new(),
    };
    let src = RequirementsSpecification::from_source(&RequirementsSource::Package(entry)).unwrap();
    assert_eq!(src.requirements.len(), 1);
    let acc = RequirementsSpecification::new_empty();
    let merged = RequirementsSpecification::absorb(acc, src, SourceRole::Constraints).unwrap();
    assert_eq!(merged.constraints.len(), 1);
    assert_eq!(merged.constraints[0].name.as_str(), "flask");
    assert!(merged.requirements.is_empty());
}

fn assert_member_roots(pw: &ProjectWorkspace, expected: &[(&str, &str)]) {
    let packages = pw.workspace().packages();
    assert_eq!(packages.len(), expected.len());
    for (n, root) in expected {
        let found = packages
            .iter()
            .find(|(pn, _)| pn.as_str() == *n)
            .unwrap_or_else(|| panic!("missing member {}", n));
        assert_eq!(found.1.root(), root);
    }
}

fn albatross_root_workspace_snapshot() -> DirSnapshot {
    let root = "[ROOT]/albatross-root-workspace";
    let root_manifest = Manifest {
        project: Some(ProjectSection {
            name: name("albatross"),
            dependencies: vec![editable_dep(
                "bird-feeder",
                "[ROOT]/albatross-root-workspace/packages/bird-feeder",
            )],
            used_extras: Vec::new(),
        }),
        workspace: Some(WorkspaceSection {
            members: vec!["packages/*".to_string()],
            exclude: Vec::new(),
        }),
        sources: Some(vec![SourceDecl {
            package: name("bird-feeder"),
            workspace: true,
            editable: None,
        }]),
    };
    DirSnapshot {
        path: root.to_string(),
        manifest: Some(root_manifest),
        exclude_roots: Vec::new(),
        member_dirs: vec![
            MemberDir {
                root: "[ROOT]/albatross-root-workspace/packages/bird-feeder".to_string(),
                manifest: Some(project_manifest("bird-feeder", Vec::new(), None, None)),
            },
            MemberDir {
                root: "[ROOT]/albatross-root-workspace/packages/seeds".to_string(),
                manifest: Some(project_manifest("seeds", Vec::new(), None, None)),
            },
        ],
    }
}

#[test]
fn albatross_in_example() {
    let pw = ProjectWorkspace::discover(&vec![albatross_root_workspace_snapshot()]).unwrap();
    assert_eq!(pw.project_root(), "[ROOT]/albatross-root-workspace");
    assert_eq!(pw.project_name().as_str(), "albatross");
    assert_eq!(pw.workspace().root(), "[ROOT]/albatross-root-workspace");
    assert_member_roots(
        &pw,
        &[
            ("albatross", "[ROOT]/albatross-root-workspace"),
            ("bird-feeder", "[ROOT]/albatross-root-workspace/packages/bird-feeder"),
            ("seeds", "[ROOT]/albatross-root-workspace/packages/seeds"),
        ],
    );
    let sources = pw.workspace().sources();
    assert_eq!(sources.len(), 1);
    assert_eq!(sources[0].package.as_str(), "bird-feeder");
    assert!(sources[0].workspace);
    assert!(sources[0].editable.is_none());
}

#[test]
fn albatross_root_workspace() {
    let pw = ProjectWorkspace::discover(&vec![albatross_root_workspace_snapshot()]).unwrap();
    assert_eq!(pw.project_root(), "[ROOT]/albatross-root-workspace");
    assert_eq!(pw.workspace().root(), "[ROOT]/albatross-root-workspace");
    assert_member_roots(
        &pw,
        &[
            ("albatross", "[ROOT]/albatross-root-workspace"),
            ("bird-feeder", "[ROOT]/albatross-root-workspace/packages/bird-feeder"),
            ("seeds", "[ROOT]/albatross-root-workspace/packages/seeds"),
        ],
    );
}

#[test]
fn albatross_project_in_excluded() {
    let project = "[ROOT]/albatross-project-in-excluded";
    let chain = vec![
        DirSnapshot {
            path: project.to_string(),
            manifest: Some(project_manifest("albatross", Vec::new(), None, None)),
            exclude_roots: Vec::new(),
            member_dirs: Vec::new(),
        },
        DirSnapshot {
            path: "[ROOT]".to_string(),
            manifest: Some(Manifest {
                project: None,
                workspace: Some(WorkspaceSection {
                    members: vec!["*".to_string()],
                    exclude: vec!["albatross-project-in-excluded".to_string()],
                }),
                sources: None,
            }),
            exclude_roots: vec![project.to_string()],
            member_dirs: Vec::new(),
        },
    ];
    let pw = ProjectWorkspace::discover(&chain).unwrap();
    assert_eq!(pw.project_root(), project);
    assert_eq!(pw.project_name().as_str(), "albatross");
    assert_eq!(pw.workspace().root(), project);
    assert_member_roots(&pw, &[("albatross", project)]);
    assert!(pw.workspace().sources().is_empty());
}

#[test]
fn albatross_virtual_workspace() {
    let ws = "[ROOT]/albatross-virtual-workspace";
    let chain = vec![
        DirSnapshot {
            path: format!("{}/packages/albatross", ws),
            manifest: Some(project_manifest("albatross", Vec::new(), None, None)),
            exclude_roots: Vec::new(),
            member_dirs: Vec::new(),
        },
        DirSnapshot {
            path: format!("{}/packages", ws),
            manifest: None,
            exclude_roots: Vec::new(),
            member_dirs: Vec::new(),
        },
        DirSnapshot {
            path: ws.to_string(),
            manifest: Some(Manifest {
                project: None,
                workspace: Some(WorkspaceSection {
                    members: vec!["packages/*".to_string()],
                    exclude: Vec::new(),
                }),
                sources: None,
            }),
            exclude_roots: Vec::new(),
            member_dirs: vec![
                MemberDir {
                    root: format!("{}/packages/albatross", ws),
                    manifest: Some(project_manifest("albatross", Vec::new(), None, None)),
                },
                MemberDir {
                    root: format!("{}/packages/bird-feeder", ws),
                    manifest: Some(project_manifest("bird-feeder", Vec::new(), None, None)),
                },
                MemberDir {
                    root: format!("{}/packages/seeds", ws),
                    manifest: Some(project_manifest("seeds", Vec::new(), None, None)),
                },
            ],
        },
    ];
    let pw = ProjectWorkspace::discover(&chain).unwrap();
    assert_eq!(pw.project_root(), &format!("{}/packages/albatross", ws));
    assert_eq!(pw.project_name().as_str(), "albatross");
    assert_eq!(pw.workspace().root(), ws);
    assert_member_roots(
        &pw,
        &[
            ("albatross", &format!("{}/packages/albatross", ws)),
            ("bird-feeder", &format!("{}/packages/bird-feeder", ws)),
            ("seeds", &format!("{}/packages/seeds", ws)),
        ],
    );
    assert!(pw.workspace().sources().is_empty());
}

#[test]
fn albatross_just_project() {
    let project = "[ROOT]/albatross-just-project";
    let chain = vec![DirSnapshot {
        path: project.to_string(),
        manifest: Some(project_manifest("albatross", Vec::new(), None, None)),
        exclude_roots: Vec::new(),
        member_dirs: Vec::new(),
    }];
    let pw = ProjectWorkspace::discover(&chain).unwrap();
    assert_eq!(pw.project_root(), project);
    assert_eq!(pw.workspace().root(), project);
    assert_member_roots(&pw, &[("albatross", project)]);
    assert!(pw.workspace().sources().is_empty());
}

// Discovery from two different members of one workspace settles on the
// same workspace root and member set.
#[test]
fn workspace_round_trip_between_members() {
    let ws = "/ws";
    let ws_snapshot = |_start: &str| DirSnapshot {
        path: ws.to_string(),
        manifest: Some(Manifest {
            project: None,
            workspace: Some(WorkspaceSection {
                members: vec!["*".to_string()],
                exclude: Vec::new(),
            }),
            sources: None,
        }),
        exclude_roots: Vec::new(),
        member_dirs: vec![
            MemberDir {
                root: "/ws/a".to_string(),
                manifest: Some(project_manifest("a", Vec::new(), None, None)),
            },
            MemberDir {
                root: "/ws/b".to_string(),
                manifest: Some(project_manifest("b", Vec::new(), None, None)),
            },
        ],
    };
    let from_a = ProjectWorkspace::discover(&vec![
        DirSnapshot {
            path: "/ws/a".to_string(),
            manifest: Some(project_manifest("a", Vec::new(), None, None)),
            exclude_roots: Vec::new(),
            member_dirs: Vec::new(),
        },
        ws_snapshot("a"),
    ])
    .unwrap();
    let from_b = ProjectWorkspace::discover(&vec![
        DirSnapshot {
            path: "/ws/b".to_string(),
            manifest: Some(project_manifest("b", Vec::new(), None, None)),
            exclude_roots: Vec::new(),
            member_dirs: Vec::new(),
        },
        ws_snapshot("b"),
    ])
    .unwrap();
    assert_eq!(from_a.workspace().root(), from_b.workspace().root());
    let names = |pw: &ProjectWorkspace| {
        let mut v: Vec<String> =
            pw.workspace().packages().iter().map(|(n, _)| n.as_str().to_string()).collect();
        v.sort();
        v
    };
    assert_eq!(names(&from_a), names(&from_b));
}

// Report lines stand in their stable order: names ascending, removals
// before additions.
#[test]
fn report_ordering() {
    let ev = |n: &str, v: &str, kind| ChangeEvent {
        name: n.to_string(),
        version_text: v.to_string(),
        kind,
    };
    let out = order_events(vec![
        ev("zlib", "==1.0", ChangeEventKind::Added),
        ev("flask", "==3.0.0", ChangeEventKind::Added),
        ev("flask", "==2.0.0", ChangeEventKind::Removed),
    ]);
    assert_eq!(out.len(), 3);
    assert_eq!(out[0].name, "flask");
    assert!(matches!(out[0].kind, ChangeEventKind::Removed));
    assert_eq!(out[1].name, "flask");
    assert!(matches!(out[1].kind, ChangeEventKind::Added));
    assert_eq!(out[2].name, "zlib");
}

// Error variants carry the offending input.
#[test]
fn url_decode_failure_is_reported() {
    let u = Url {
        scheme: "https".to_string(),
        userinfo: String::new(),
        host: "example.org".to_string(),
        port: None,
        segments: vec!["bad%ff%fe".to_string()],
        fragment: None,
        verbatim: "https://example.org/bad%ff%fe".to_string(),
    };
    assert!(matches!(u.filename(), Err(Error::UrlDecode { .. })));
}

// With builds disallowed, only prebuilt archives go on; nothing is lost.
#[test]
fn no_build_partition() {
    let u = url_at("files.invalid", &["my-lib"], "file:///work/my-lib");
    let dists = vec![
        registry_flask(),
        Dist::Source(SourceDist::Directory(distsync::dist::DirectorySourceDist {
            name: name("my-lib"),
            url: u,
            path: "/work/my-lib".to_string(),
            editable: false,
        })),
    ];
    let (built, source) = distsync::sync::partition_buildable(dists);
    assert_eq!(built.len(), 1);
    assert_eq!(source.len(), 1);
    assert!(matches!(built[0], Dist::Built(_)));
    assert!(matches!(source[0], Dist::Source(_)));
}

// Discovery outcomes map onto manifest-source states: a missing project
// section means a dynamic source tree, other faults stay faults.
#[test]
fn discovery_outcome_to_state() {
    let project = "[ROOT]/albatross-just-project";
    let chain = vec![DirSnapshot {
        path: project.to_string(),
        manifest: Some(project_manifest("albatross", Vec::new(), None, None)),
        exclude_roots: Vec::new(),
        member_dirs: Vec::new(),
    }];
    let ok = ProjectWorkspace::discover(&chain);
    let c = PyprojectContent::of_discovery("p".to_string(), ok);
    assert!(matches!(c.state, PyprojectState::Discovered(_)));
    let c = PyprojectContent::of_discovery(
        "p".to_string(),
        Err(distsync::discovery::DiscoverError::MissingProject("x".to_string())),
    );
    assert!(matches!(c.state, PyprojectState::Dynamic));
    let c = PyprojectContent::of_discovery(
        "p".to_string(),
        Err(distsync::discovery::DiscoverError::MissingPyprojectToml),
    );
    assert!(matches!(c.state, PyprojectState::Failed(_)));
}

// Every withdrawn fetched distribution is warned about, with the reason.
#[test]
fn yanked_warning_completeness() {
    let mut d = registry_flask();
    if let Dist::Built(BuiltDist::Registry(x)) = &mut d {
        x.wheels[0].file.yanked =
            Some(distsync::file::Yanked::Reason("cve".to_string()));
    }
    let remote = vec![d, registry_flask()];
    let warnings = distsync::sync::yanked_warnings(&remote);
    assert_eq!(warnings.len(), 1);
    assert_eq!(warnings[0].name.as_str(), "flask");
    assert_eq!(warnings[0].reason.as_deref(), Some("cve"));
}

// Identity keys compare by value.
#[test]
fn identity_key_comparison() {
    let a = DistributionId::Digest("sha256:01".to_string());
    let b = DistributionId::Digest("sha256:01".to_string());
    let c = DistributionId::Digest("sha256:02".to_string());
    let d = DistributionId::LocalPath("sha256:01".to_string());
    assert!(a.same(&b));
    assert!(!a.same(&c));
    assert!(!a.same(&d));
}
