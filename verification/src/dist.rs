//! The distribution taxonomy.
//!
//! A distribution is one acquirable package at a specific version or
//! location. It is either already built — a prebuilt archive from a
//! registry, a direct locator or a local path — or a source that must be
//! built: from a registry, a direct locator, a repository, a local archive
//! or a local directory. Classification of a requirement plus locator into
//! exactly one of these variants drives both planning and execution.

use vstd::prelude::*;
use crate::error::Error;
use crate::file::File;
use crate::filename::{has_whl_suffix_ci, valid_whl_text, whl_parts, WheelFilename};
use crate::id::{
    dist_id_view, file_distribution_id, file_resource_id, res_id_view, spec_file_id,
    spec_url_dist_id, spec_url_res_id, url_distribution_id, url_resource_id, DistributionId,
    ResourceId,
};
use crate::name::{normalize_chars, PackageName};
use crate::url::{canon_seg, percent_decoded, Url};
use crate::version::Version;

verus! {

/// What a canonicalized local path turned out to be.
#[derive(Clone, Copy, PartialEq, Eq, Structural)]
pub enum PathKind {
    /// The path does not exist.
    Missing,
    /// The path is a directory.
    Directory,
    /// The path is a regular file.
    RegularFile,
}

/// A prebuilt archive listed by a registry.
pub struct RegistryBuiltWheel {
    pub filename: WheelFilename,
    pub file: File,
    pub index: Url,
}

/// A registry distribution resolved to prebuilt archives: all candidates,
/// the best one under the current compatibility environment, and the
/// companion source archive when one exists.
pub struct RegistryBuiltDist {
    pub wheels: Vec<RegistryBuiltWheel>,
    pub best_wheel_index: usize,
    pub sdist: Option<RegistrySourceDist>,
}

/// A prebuilt archive at an arbitrary locator.
pub struct DirectUrlBuiltDist {
    pub filename: WheelFilename,
    pub location: Url,
    pub subdirectory: Option<String>,
    pub url: Url,
}

/// A prebuilt archive on the local disk.
pub struct PathBuiltDist {
    pub filename: WheelFilename,
    pub url: Url,
    pub path: String,
}

/// A source archive listed by a registry, with any companion prebuilt
/// archives that were not chosen.
pub struct RegistrySourceDist {
    pub name: PackageName,
    pub version: Version,
    pub file: File,
    pub index: Url,
    pub wheels: Vec<RegistryBuiltWheel>,
}

/// A source archive at an arbitrary locator.
pub struct DirectUrlSourceDist {
    pub name: PackageName,
    pub location: Url,
    pub subdirectory: Option<String>,
    pub url: Url,
}

/// A source in a repository, at a revision carried by the locator.
pub struct GitSourceDist {
    pub name: PackageName,
    pub git: Url,
    pub subdirectory: Option<String>,
    pub url: Url,
}

/// A source archive on the local disk.
pub struct PathSourceDist {
    pub name: PackageName,
    pub url: Url,
    pub path: String,
}

/// A source directory on the local disk, possibly installed editable.
pub struct DirectorySourceDist {
    pub name: PackageName,
    pub url: Url,
    pub path: String,
    pub editable: bool,
}

/// A prebuilt distribution, by origin.
pub enum BuiltDist {
    Registry(RegistryBuiltDist),
    DirectUrl(DirectUrlBuiltDist),
    Path(PathBuiltDist),
}

/// A source distribution, by origin.
pub enum SourceDist {
    Registry(RegistrySourceDist),
    DirectUrl(DirectUrlSourceDist),
    Git(GitSourceDist),
    Path(PathSourceDist),
    Directory(DirectorySourceDist),
}

/// Either a prebuilt distribution or a source distribution.
pub enum Dist {
    Built(BuiltDist),
    Source(SourceDist),
}

/// A local directory declared editable, as handed over by the aggregator.
pub struct LocalEditable {
    pub url: Url,
    pub path: String,
}

/// A locator already parsed into its shape.
pub enum ParsedUrl {
    /// An archive behind `http(s)`.
    Archive { url: Url, subdirectory: Option<String> },
    /// A local file or directory, with what the disk says it is.
    LocalFile { path: String, kind: PathKind },
    /// A repository.
    Repo { url: Url, subdirectory: Option<String> },
}

/// A parsed locator together with the text as written.
pub struct VerbatimParsedUrl {
    pub parsed_url: ParsedUrl,
    pub verbatim: Url,
}

/// What identifies a distribution for a requirement: a registry version or
/// a locator.
pub enum VersionOrUrlRef<'a> {
    Version(&'a Version),
    Url(&'a Url),
}

impl<'a> VersionOrUrlRef<'a> {
    /// The pin as it would be written in a requirement: `==` and the
    /// version, or ` @ ` and the locator as written.
    pub fn verbatim(&self) -> (r: String)
        ensures
            match self {
                VersionOrUrlRef::Version(v) => r@ == "=="@ + v.text_view(),
                VersionOrUrlRef::Url(u) => r@ == " @ "@ + u.verbatim@,
            },
    {
        match self {
            VersionOrUrlRef::Version(version) => {
                let mut s = String::new();
                s.append("==");
                s.append(version.as_str());
                s
            },
            VersionOrUrlRef::Url(url) => {
                let mut s = String::new();
                s.append(" @ ");
                s.append(url.verbatim.as_str());
                s
            },
        }
    }
}

/// The version of an installed distribution, with the locator it came from
/// when its origin was a direct locator.
pub enum InstalledVersion<'a> {
    Version(&'a Version),
    Url(&'a Url, &'a Version),
}

impl<'a> InstalledVersion<'a> {
    /// The display form: the pinned version, and its origin locator if any.
    pub fn to_display_string(&self) -> (r: String)
        ensures
            match self {
                InstalledVersion::Version(v) => r@ == "=="@ + v.text_view(),
                InstalledVersion::Url(u, v) => r@ == "=="@ + v.text_view() + " (from "@
                    + u.verbatim@ + ")"@,
            },
    {
        match self {
            InstalledVersion::Version(version) => {
                let mut s = String::new();
                s.append("==");
                s.append(version.as_str());
                s
            },
            InstalledVersion::Url(url, version) => {
                let mut s = String::new();
                s.append("==");
                s.append(version.as_str());
                s.append(" (from ");
                s.append(url.verbatim.as_str());
                s.append(")");
                s
            },
        }
    }
}

impl RegistryBuiltDist {
    /// The best index points into the candidate list, which is nonempty.
    pub open spec fn wf(&self) -> bool {
        self.wheels@.len() > 0 && self.best_wheel_index < self.wheels@.len()
    }

    /// The best, most compatible prebuilt archive.
    pub fn best_wheel(&self) -> (r: &RegistryBuiltWheel)
        requires
            self.wf(),
        ensures
            r == &self.wheels@[self.best_wheel_index as int],
    {
        &self.wheels[self.best_wheel_index]
    }
}

impl BuiltDist {
    pub open spec fn wf(&self) -> bool {
        match self {
            BuiltDist::Registry(d) => d.wf(),
            _ => true,
        }
    }
}

impl SourceDist {
    pub open spec fn wf(&self) -> bool {
        true
    }
}

/// The package name a prebuilt distribution is for.
pub open spec fn built_name(b: &BuiltDist) -> Seq<char> {
    match b {
        BuiltDist::Registry(d) => d.wheels@[d.best_wheel_index as int].filename.name@,
        BuiltDist::DirectUrl(d) => d.filename.name@,
        BuiltDist::Path(d) => d.filename.name@,
    }
}

/// The package name a source distribution is for.
pub open spec fn source_name(s: &SourceDist) -> Seq<char> {
    match s {
        SourceDist::Registry(d) => d.name@,
        SourceDist::DirectUrl(d) => d.name@,
        SourceDist::Git(d) => d.name@,
        SourceDist::Path(d) => d.name@,
        SourceDist::Directory(d) => d.name@,
    }
}

/// The package name a distribution is for.
pub open spec fn dist_name(d: &Dist) -> Seq<char> {
    match d {
        Dist::Built(b) => built_name(b),
        Dist::Source(s) => source_name(s),
    }
}

/// The identity of this exact version or content.
pub open spec fn spec_dist_id(d: &Dist) -> (int, Seq<char>, Seq<char>) {
    match d {
        Dist::Built(BuiltDist::Registry(r)) => spec_file_id(
            &r.wheels@[r.best_wheel_index as int].file,
        ),
        Dist::Built(BuiltDist::DirectUrl(w)) => spec_url_dist_id(&w.url),
        Dist::Built(BuiltDist::Path(p)) => spec_url_dist_id(&p.url),
        Dist::Source(SourceDist::Registry(s)) => spec_file_id(&s.file),
        Dist::Source(SourceDist::DirectUrl(s)) => spec_url_dist_id(&s.url),
        Dist::Source(SourceDist::Git(s)) => spec_url_dist_id(&s.url),
        Dist::Source(SourceDist::Path(s)) => spec_url_dist_id(&s.url),
        Dist::Source(SourceDist::Directory(s)) => spec_url_dist_id(&s.url),
    }
}

/// The identity of the source of artifacts.
pub open spec fn spec_dist_res_id(d: &Dist) -> (int, Seq<char>, Seq<char>) {
    match d {
        Dist::Built(BuiltDist::Registry(r)) => spec_file_id(
            &r.wheels@[r.best_wheel_index as int].file,
        ),
        Dist::Built(BuiltDist::DirectUrl(w)) => spec_url_res_id(&w.url),
        Dist::Built(BuiltDist::Path(p)) => spec_url_res_id(&p.url),
        Dist::Source(SourceDist::Registry(s)) => spec_file_id(&s.file),
        Dist::Source(SourceDist::DirectUrl(s)) => spec_url_res_id(&s.url),
        Dist::Source(SourceDist::Git(s)) => spec_url_res_id(&s.url),
        Dist::Source(SourceDist::Path(s)) => spec_url_res_id(&s.url),
        Dist::Source(SourceDist::Directory(s)) => spec_url_res_id(&s.url),
    }
}

/// Whether a locator's path says it names a prebuilt archive: it has a last
/// segment ending in the artifact suffix, in any letter case.
pub open spec fn wheel_path(url: &Url) -> bool {
    url.segments@.len() > 0 && has_whl_suffix_ci(url.segments@.last()@)
}

/// What classifying an `http(s)` locator must yield. `fname` below names
/// the canonical (decoded) form of the locator's last segment.
pub open spec fn http_url_outcome(
    name: Seq<char>,
    location: Url,
    subdirectory: Option<String>,
    url: Url,
    r: Result<Dist, Error>,
) -> bool {
    let fname = canon_seg(url.segments@.last()@);
    match r {
        Ok(d) => if wheel_path(&url) {
            d matches Dist::Built(BuiltDist::DirectUrl(w)) && valid_whl_text(fname)
                && w.filename.parses(fname) && w.filename.name@ == name && w.location == location
                && w.subdirectory == subdirectory && w.url == url
        } else {
            d matches Dist::Source(SourceDist::DirectUrl(s)) && s.name@ == name && s.location
                == location && s.subdirectory == subdirectory && s.url == url
        },
        Err(e) => wheel_path(&url) && match e {
            Error::PackageNameMismatch { requested, in_filename, url: u } => valid_whl_text(fname)
                && requested@ == name && in_filename@ == normalize_chars(whl_parts(fname)[0])
                && in_filename@ != name && u@ == url.verbatim@,
            Error::InvalidFilename { filename } => !valid_whl_text(filename@),
            Error::UrlDecode { url: u } => url.segments@.last()@.contains('%') && u@
                == url.verbatim@,
            _ => false,
        },
    }
}

/// What classifying a `file://` locator must yield, given what the disk
/// said about the canonicalized path.
pub open spec fn file_url_outcome(
    name: Seq<char>,
    path: Seq<char>,
    kind: PathKind,
    editable: bool,
    url: Url,
    r: Result<Dist, Error>,
) -> bool {
    let fname = canon_seg(url.segments@.last()@);
    match r {
        Ok(d) => kind != PathKind::Missing && if kind == PathKind::Directory {
            d matches Dist::Source(SourceDist::Directory(s)) && s.name@ == name && s.url == url
                && s.path@ == path && s.editable == editable
        } else if has_whl_suffix_ci(path) {
            !editable && (d matches Dist::Built(BuiltDist::Path(w)) && valid_whl_text(fname)
                && w.filename.parses(fname) && w.filename.name@ == name && w.url == url && w.path@
                == path)
        } else {
            !editable && (d matches Dist::Source(SourceDist::Path(s)) && s.name@ == name && s.url
                == url && s.path@ == path)
        },
        Err(e) => match e {
            Error::NotFound { url: u } => kind == PathKind::Missing && u@ == url.verbatim@,
            Error::EditableFile { url: u } => kind == PathKind::RegularFile && editable && u@
                == url.verbatim@,
            Error::PackageNameMismatch { requested, in_filename, url: u } => kind
                == PathKind::RegularFile && has_whl_suffix_ci(path) && valid_whl_text(fname)
                && requested@ == name && in_filename@ == normalize_chars(whl_parts(fname)[0])
                && in_filename@ != name && u@ == url.verbatim@,
            Error::InvalidFilename { filename } => kind == PathKind::RegularFile
                && has_whl_suffix_ci(path) && !valid_whl_text(filename@),
            Error::UrlFilename { url: u } => kind == PathKind::RegularFile && has_whl_suffix_ci(
                path,
            ) && url.segments@.len() == 0 && u@ == url.verbatim@,
            Error::UrlDecode { url: u } => kind == PathKind::RegularFile && has_whl_suffix_ci(path)
                && u@ == url.verbatim@,
        },
    }
}

impl Dist {
    pub open spec fn wf(&self) -> bool {
        match self {
            Dist::Built(b) => b.wf(),
            Dist::Source(s) => s.wf(),
        }
    }

    /// Classify a remote distribution behind an `http(s)` locator: a
    /// prebuilt archive when the path says so — validating that the name
    /// embedded in its filename is the requirement's — else a source.
    pub fn from_http_url(
        name: PackageName,
        location: Url,
        subdirectory: Option<String>,
        url: Url,
    ) -> (r: Result<Dist, Error>)
        ensures
            http_url_outcome(name@, location, subdirectory, url, r),
            r matches Ok(d) ==> d.wf(),
    {
        let is_wheel = if url.segments.len() == 0 {
            false
        } else {
            crate::filename::is_whl_name(url.segments[url.segments.len() - 1].as_str())
        };
        if is_wheel {
            // Validate that the name in the artifact matches the requirement.
            let fname = match url.filename() {
                Ok(f) => f,
                Err(e) => {
                    return Err(e);
                },
            };
            let filename = match WheelFilename::parse(fname.as_str()) {
                Ok(f) => f,
                Err(e) => {
                    return Err(e);
                },
            };
            if !filename.name.same(&name) {
                return Err(
                    Error::PackageNameMismatch {
                        requested: name.as_str().to_owned(),
                        in_filename: filename.name.as_str().to_owned(),
                        url: url.verbatim.clone(),
                    },
                );
            }
            Ok(
                Dist::Built(
                    BuiltDist::DirectUrl(
                        DirectUrlBuiltDist { filename, location, subdirectory, url },
                    ),
                ),
            )
        } else {
            Ok(
                Dist::Source(
                    SourceDist::DirectUrl(
                        DirectUrlSourceDist { name, location, subdirectory, url },
                    ),
                ),
            )
        }
    }

    /// Classify a local distribution behind a `file://` locator, from the
    /// canonicalized path and what the disk said it is. A directory honors
    /// the editable flag; a file or archive refuses it.
    pub fn from_file_url(name: PackageName, path: String, kind: PathKind, editable: bool, url: Url)
        -> (r: Result<Dist, Error>)
        ensures
            file_url_outcome(name@, path@, kind, editable, url, r),
            r matches Ok(d) ==> d.wf(),
    {
        match kind {
            PathKind::Missing => Err(Error::NotFound { url: url.verbatim.clone() }),
            PathKind::Directory => Ok(
                Dist::Source(
                    SourceDist::Directory(DirectorySourceDist { name, url, path, editable }),
                ),
            ),
            PathKind::RegularFile => {
                if crate::filename::is_whl_name(path.as_str()) {
                    // Validate the name embedded in the artifact filename.
                    let fname = match url.filename() {
                        Ok(f) => f,
                        Err(e) => {
                            return Err(e);
                        },
                    };
                    let filename = match WheelFilename::parse(fname.as_str()) {
                        Ok(f) => f,
                        Err(e) => {
                            return Err(e);
                        },
                    };
                    if !filename.name.same(&name) {
                        return Err(
                            Error::PackageNameMismatch {
                                requested: name.as_str().to_owned(),
                                in_filename: filename.name.as_str().to_owned(),
                                url: url.verbatim.clone(),
                            },
                        );
                    }
                    if editable {
                        return Err(Error::EditableFile { url: url.verbatim.clone() });
                    }
                    Ok(Dist::Built(BuiltDist::Path(PathBuiltDist { filename, url, path })))
                } else {
                    if editable {
                        return Err(Error::EditableFile { url: url.verbatim.clone() });
                    }
                    Ok(Dist::Source(SourceDist::Path(PathSourceDist { name, url, path })))
                }
            },
        }
    }

    /// Classify a remote source in a repository. Always a source
    /// distribution; the revision stays on the locator.
    pub fn from_git_url(name: PackageName, url: Url, git: Url, subdirectory: Option<String>) -> (r:
        Result<Dist, Error>)
        ensures
            r matches Ok(d) && (d matches Dist::Source(SourceDist::Git(g)) && g.name@ == name@
                && g.git == git && g.subdirectory == subdirectory && g.url == url),
            r matches Ok(d) ==> d.wf(),
    {
        Ok(Dist::Source(SourceDist::Git(GitSourceDist { name, git, subdirectory, url })))
    }

    /// Classify a locator-based distribution by its parsed shape.
    pub fn from_url(name: PackageName, url: VerbatimParsedUrl) -> (r: Result<Dist, Error>)
        ensures
            match url.parsed_url {
                ParsedUrl::Archive { url: u, subdirectory } => http_url_outcome(
                    name@,
                    u,
                    subdirectory,
                    url.verbatim,
                    r,
                ),
                ParsedUrl::LocalFile { path, kind } => file_url_outcome(
                    name@,
                    path@,
                    kind,
                    false,
                    url.verbatim,
                    r,
                ),
                ParsedUrl::Repo { url: u, subdirectory } => r matches Ok(d) && (d matches
                    Dist::Source(SourceDist::Git(g)) && g.name@ == name@ && g.git == u
                    && g.subdirectory == subdirectory && g.url == url.verbatim),
            },
            r matches Ok(d) ==> d.wf(),
    {
        match url.parsed_url {
            ParsedUrl::Archive { url: u, subdirectory } => Dist::from_http_url(
                name,
                u,
                subdirectory,
                url.verbatim,
            ),
            ParsedUrl::LocalFile { path, kind } => Dist::from_file_url(
                name,
                path,
                kind,
                false,
                url.verbatim,
            ),
            ParsedUrl::Repo { url: u, subdirectory } => Dist::from_git_url(
                name,
                url.verbatim,
                u,
                subdirectory,
            ),
        }
    }

    /// Classify a local editable distribution: always a source directory
    /// with the editable flag set.
    pub fn from_editable(name: PackageName, editable: LocalEditable) -> (r: Result<Dist, Error>)
        ensures
            r matches Ok(d) && (d matches Dist::Source(SourceDist::Directory(s)) && s.name@
                == name@ && s.url == editable.url && s.path@ == editable.path@ && s.editable),
            r matches Ok(d) ==> d.wf(),
    {
        let LocalEditable { url, path } = editable;
        Ok(
            Dist::Source(
                SourceDist::Directory(DirectorySourceDist { name, url, path, editable: true }),
            ),
        )
    }

    /// Whether the distribution is editable.
    pub fn is_editable(&self) -> (r: bool)
        ensures
            r == (self matches Dist::Source(SourceDist::Directory(s)) && s.editable),
    {
        match self {
            Dist::Source(dist) => dist.is_editable(),
            Dist::Built(_) => false,
        }
    }

    /// The index a registry distribution came from.
    pub fn index(&self) -> (r: Option<&Url>)
        requires
            self.wf(),
        ensures
            match self {
                Dist::Built(BuiltDist::Registry(d)) => r == Some(
                    &d.wheels@[d.best_wheel_index as int].index,
                ),
                Dist::Source(SourceDist::Registry(d)) => r == Some(&d.index),
                _ => r is None,
            },
    {
        match self {
            Dist::Built(dist) => dist.index(),
            Dist::Source(dist) => dist.index(),
        }
    }

    /// The registry artifact record, for registry distributions.
    pub fn file(&self) -> (r: Option<&File>)
        requires
            self.wf(),
        ensures
            match self {
                Dist::Built(BuiltDist::Registry(d)) => r == Some(
                    &d.wheels@[d.best_wheel_index as int].file,
                ),
                Dist::Source(SourceDist::Registry(d)) => r == Some(&d.file),
                _ => r is None,
            },
    {
        match self {
            Dist::Built(built) => built.file(),
            Dist::Source(source) => source.file(),
        }
    }

    /// The version, where the variant carries one.
    pub fn version(&self) -> (r: Option<&Version>)
        requires
            self.wf(),
        ensures
            match self {
                Dist::Built(BuiltDist::Registry(d)) => r == Some(
                    &d.wheels@[d.best_wheel_index as int].filename.version,
                ),
                Dist::Built(BuiltDist::DirectUrl(d)) => r == Some(&d.filename.version),
                Dist::Built(BuiltDist::Path(d)) => r == Some(&d.filename.version),
                Dist::Source(SourceDist::Registry(d)) => r == Some(&d.version),
                _ => r is None,
            },
    {
        match self {
            Dist::Built(wheel) => Some(wheel.version()),
            Dist::Source(source_dist) => source_dist.version(),
        }
    }

    /// The package name.
    pub fn name(&self) -> (r: &PackageName)
        requires
            self.wf(),
        ensures
            r@ == dist_name(self),
    {
        match self {
            Dist::Built(dist) => dist.name(),
            Dist::Source(dist) => dist.name(),
        }
    }

    /// The identity of this exact version or content.
    pub fn distribution_id(&self) -> (r: DistributionId)
        requires
            self.wf(),
        ensures
            dist_id_view(&r) == spec_dist_id(self),
    {
        match self {
            Dist::Built(dist) => dist.distribution_id(),
            Dist::Source(dist) => dist.distribution_id(),
        }
    }

    /// The identity of the source of artifacts.
    pub fn resource_id(&self) -> (r: ResourceId)
        requires
            self.wf(),
        ensures
            res_id_view(&r) == spec_dist_res_id(self),
    {
        match self {
            Dist::Built(dist) => dist.resource_id(),
            Dist::Source(dist) => dist.resource_id(),
        }
    }
}

impl BuiltDist {
    /// The index a registry distribution came from.
    pub fn index(&self) -> (r: Option<&Url>)
        requires
            self.wf(),
        ensures
            match self {
                BuiltDist::Registry(d) => r == Some(&d.wheels@[d.best_wheel_index as int].index),
                _ => r is None,
            },
    {
        match self {
            BuiltDist::Registry(registry) => Some(&registry.best_wheel().index),
            BuiltDist::DirectUrl(_) => None,
            BuiltDist::Path(_) => None,
        }
    }

    /// The registry artifact record, for registry distributions.
    pub fn file(&self) -> (r: Option<&File>)
        requires
            self.wf(),
        ensures
            match self {
                BuiltDist::Registry(d) => r == Some(&d.wheels@[d.best_wheel_index as int].file),
                _ => r is None,
            },
    {
        match self {
            BuiltDist::Registry(registry) => Some(&registry.best_wheel().file),
            BuiltDist::DirectUrl(_) | BuiltDist::Path(_) => None,
        }
    }

    /// The version. A prebuilt archive always carries one in its filename.
    pub fn version(&self) -> (r: &Version)
        requires
            self.wf(),
        ensures
            match self {
                BuiltDist::Registry(d) => r == &d.wheels@[d.best_wheel_index as int]
                    .filename.version,
                BuiltDist::DirectUrl(d) => r == &d.filename.version,
                BuiltDist::Path(d) => r == &d.filename.version,
            },
    {
        match self {
            BuiltDist::Registry(wheels) => &wheels.best_wheel().filename.version,
            BuiltDist::DirectUrl(wheel) => &wheel.filename.version,
            BuiltDist::Path(wheel) => &wheel.filename.version,
        }
    }

    /// The package name.
    pub fn name(&self) -> (r: &PackageName)
        requires
            self.wf(),
        ensures
            r@ == built_name(self),
    {
        match self {
            BuiltDist::Registry(dist) => &dist.best_wheel().filename.name,
            BuiltDist::DirectUrl(dist) => &dist.filename.name,
            BuiltDist::Path(dist) => &dist.filename.name,
        }
    }

    /// The identity of this exact version or content.
    pub fn distribution_id(&self) -> (r: DistributionId)
        requires
            self.wf(),
        ensures
            dist_id_view(&r) == spec_dist_id(&Dist::Built(*self)),
    {
        match self {
            BuiltDist::Registry(dist) => file_distribution_id(&dist.best_wheel().file),
            BuiltDist::DirectUrl(dist) => url_distribution_id(&dist.url),
            BuiltDist::Path(dist) => url_distribution_id(&dist.url),
        }
    }

    /// The identity of the source of artifacts.
    pub fn resource_id(&self) -> (r: ResourceId)
        requires
            self.wf(),
        ensures
            res_id_view(&r) == spec_dist_res_id(&Dist::Built(*self)),
    {
        match self {
            BuiltDist::Registry(dist) => file_resource_id(&dist.best_wheel().file),
            BuiltDist::DirectUrl(dist) => url_resource_id(&dist.url),
            BuiltDist::Path(dist) => url_resource_id(&dist.url),
        }
    }
}

impl SourceDist {
    /// The index a registry distribution came from.
    pub fn index(&self) -> (r: Option<&Url>)
        ensures
            match self {
                SourceDist::Registry(d) => r == Some(&d.index),
                _ => r is None,
            },
    {
        match self {
            SourceDist::Registry(registry) => Some(&registry.index),
            _ => None,
        }
    }

    /// The registry artifact record, for registry distributions.
    pub fn file(&self) -> (r: Option<&File>)
        ensures
            match self {
                SourceDist::Registry(d) => r == Some(&d.file),
                _ => r is None,
            },
    {
        match self {
            SourceDist::Registry(registry) => Some(&registry.file),
            _ => None,
        }
    }

    /// The version, which only a registry source carries.
    pub fn version(&self) -> (r: Option<&Version>)
        ensures
            match self {
                SourceDist::Registry(d) => r == Some(&d.version),
                _ => r is None,
            },
    {
        match self {
            SourceDist::Registry(source_dist) => Some(&source_dist.version),
            _ => None,
        }
    }

    /// Whether the distribution is editable.
    pub fn is_editable(&self) -> (r: bool)
        ensures
            r == (self matches SourceDist::Directory(s) && s.editable),
    {
        match self {
            SourceDist::Directory(DirectorySourceDist { editable, .. }) => *editable,
            _ => false,
        }
    }

    /// The path on the local disk, for local distributions.
    pub fn as_path(&self) -> (r: Option<&String>)
        ensures
            match self {
                SourceDist::Path(d) => r == Some(&d.path),
                SourceDist::Directory(d) => r == Some(&d.path),
                _ => r is None,
            },
    {
        match self {
            SourceDist::Path(dist) => Some(&dist.path),
            SourceDist::Directory(dist) => Some(&dist.path),
            _ => None,
        }
    }

    /// The package name.
    pub fn name(&self) -> (r: &PackageName)
        ensures
            r@ == source_name(self),
    {
        match self {
            SourceDist::Registry(dist) => &dist.name,
            SourceDist::DirectUrl(dist) => &dist.name,
            SourceDist::Git(dist) => &dist.name,
            SourceDist::Path(dist) => &dist.name,
            SourceDist::Directory(dist) => &dist.name,
        }
    }

    /// The identity of this exact version or content.
    pub fn distribution_id(&self) -> (r: DistributionId)
        ensures
            dist_id_view(&r) == spec_dist_id(&Dist::Source(*self)),
    {
        match self {
            SourceDist::Registry(dist) => file_distribution_id(&dist.file),
            SourceDist::DirectUrl(dist) => url_distribution_id(&dist.url),
            SourceDist::Git(dist) => url_distribution_id(&dist.url),
            SourceDist::Path(dist) => url_distribution_id(&dist.url),
            SourceDist::Directory(dist) => url_distribution_id(&dist.url),
        }
    }

    /// The identity of the source of artifacts.
    pub fn resource_id(&self) -> (r: ResourceId)
        ensures
            res_id_view(&r) == spec_dist_res_id(&Dist::Source(*self)),
    {
        match self {
            SourceDist::Registry(dist) => file_resource_id(&dist.file),
            SourceDist::DirectUrl(dist) => url_resource_id(&dist.url),
            SourceDist::Git(dist) => url_resource_id(&dist.url),
            SourceDist::Path(dist) => url_resource_id(&dist.url),
            SourceDist::Directory(dist) => url_resource_id(&dist.url),
        }
    }
}

/// The text after the last occurrence of `c`, or all of `s` when `c` does
/// not occur.
pub open spec fn tail_after_last(s: Seq<char>, c: char) -> Seq<char>
    decreases s.len(),
{
    if s.len() == 0 {
        s
    } else if s.last() == c {
        Seq::empty()
    } else {
        tail_after_last(s.drop_last(), c).push(s.last())
    }
}

proof fn lemma_tail_after_none(s: Seq<char>, c: char)
    requires
        forall|j: int| 0 <= j < s.len() ==> s[j] != c,
    ensures
        tail_after_last(s, c) == s,
    decreases s.len(),
{
    if s.len() > 0 {
        lemma_tail_after_none(s.drop_last(), c);
        assert(tail_after_last(s.drop_last(), c).push(s.last()) =~= s);
    }
}

proof fn lemma_tail_after_at(s: Seq<char>, c: char, i: int)
    requires
        0 <= i < s.len(),
        s[i] == c,
        forall|j: int| i < j < s.len() ==> s[j] != c,
    ensures
        tail_after_last(s, c) == s.subrange(i + 1, s.len() as int),
    decreases s.len(),
{
    if i == s.len() - 1 {
        assert(tail_after_last(s, c) =~= s.subrange(i + 1, s.len() as int));
    } else {
        lemma_tail_after_at(s.drop_last(), c, i);
        assert(tail_after_last(s.drop_last(), c).push(s.last()) =~= s.subrange(
            i + 1,
            s.len() as int,
        ));
    }
}

/// What reading a filename out of a locator must yield.
pub open spec fn url_filename_outcome(u: &Url, r: Result<String, Error>) -> bool {
    match r {
        Ok(f) => u.segments@.len() > 0 && percent_decoded(u.segments@.last()@) == Some(f@)
            && f@ == canon_seg(u.segments@.last()@),
        Err(e) => match e {
            Error::UrlFilename { url } => u.segments@.len() == 0 && url@ == u.verbatim@,
            Error::UrlDecode { url } => u.segments@.len() > 0 && url@ == u.verbatim@
                && u.segments@.last()@.contains('%'),
            _ => false,
        },
    }
}

/// What reading a filename out of a repository locator must yield: the
/// last segment, decoded, with everything up to its last `@` removed — the
/// part after it names the checkout.
pub open spec fn git_filename_outcome(u: &Url, r: Result<String, Error>) -> bool {
    match r {
        Ok(f) => u.segments@.len() > 0 && percent_decoded(u.segments@.last()@) is Some && f@
            == tail_after_last(canon_seg(u.segments@.last()@), '@'),
        Err(e) => match e {
            Error::UrlFilename { url } => u.segments@.len() == 0 && url@ == u.verbatim@,
            Error::UrlDecode { url } => u.segments@.len() > 0 && url@ == u.verbatim@
                && u.segments@.last()@.contains('%'),
            _ => false,
        },
    }
}

/// The artifact filename a distribution would be fetched as.
pub open spec fn filename_outcome(d: &Dist, r: Result<String, Error>) -> bool {
    match d {
        Dist::Built(BuiltDist::Registry(x)) => r matches Ok(f) && f@ == x.wheels@[
            x.best_wheel_index as int
        ].file.filename@,
        Dist::Built(BuiltDist::DirectUrl(x)) => url_filename_outcome(&x.url, r),
        Dist::Built(BuiltDist::Path(x)) => url_filename_outcome(&x.url, r),
        Dist::Source(SourceDist::Registry(x)) => r matches Ok(f) && f@ == x.file.filename@,
        Dist::Source(SourceDist::DirectUrl(x)) => url_filename_outcome(&x.url, r),
        Dist::Source(SourceDist::Git(x)) => git_filename_outcome(&x.url, r),
        Dist::Source(SourceDist::Path(x)) => url_filename_outcome(&x.url, r),
        Dist::Source(SourceDist::Directory(x)) => url_filename_outcome(&x.url, r),
    }
}

/// The declared size of the artifact, where a registry declared one.
pub open spec fn spec_dist_size(d: &Dist) -> Option<u64> {
    match d {
        Dist::Built(BuiltDist::Registry(x)) => x.wheels@[x.best_wheel_index as int].file.size,
        Dist::Source(SourceDist::Registry(x)) => x.file.size,
        _ => None,
    }
}

impl RegistryBuiltWheel {
    /// The package name.
    pub fn name(&self) -> (r: &PackageName)
        ensures
            r@ == self.filename.name@,
    {
        &self.filename.name
    }

    /// The registry version pin.
    pub fn version_or_url(&self) -> (r: VersionOrUrlRef)
        ensures
            r == VersionOrUrlRef::Version(&self.filename.version),
    {
        VersionOrUrlRef::Version(&self.filename.version)
    }

    /// The artifact filename the registry listed.
    pub fn remote_filename(&self) -> (r: Result<String, Error>)
        ensures
            r matches Ok(f) && f@ == self.file.filename@,
    {
        Ok(self.file.filename.clone())
    }

    /// The declared size, if any.
    pub fn size(&self) -> (r: Option<u64>)
        ensures
            r == self.file.size,
    {
        self.file.size
    }
}

impl GitSourceDist {
    /// The filename a repository locator names: the last segment, decoded,
    /// after the `@` that separates the checkout.
    pub fn remote_filename(&self) -> (r: Result<String, Error>)
        ensures
            git_filename_outcome(&self.url, r),
    {
        let f = match self.url.filename() {
            Ok(f) => f,
            Err(e) => {
                return Err(e);
            },
        };
        let n = f.as_str().unicode_len();
        match crate::strutil::last_index_of(f.as_str(), '@') {
            Some(i) => {
                proof {
                    lemma_tail_after_at(f@, '@', i as int);
                }
                Ok(f.as_str().substring_char(i + 1, n).to_owned())
            },
            None => {
                proof {
                    lemma_tail_after_none(f@, '@');
                }
                Ok(f)
            },
        }
    }
}

impl Dist {
    /// What identifies this distribution: a registry version or a locator.
    pub fn version_or_url(&self) -> (r: VersionOrUrlRef)
        requires
            self.wf(),
        ensures
            match self {
                Dist::Built(BuiltDist::Registry(d)) => r == VersionOrUrlRef::Version(
                    &d.wheels@[d.best_wheel_index as int].filename.version,
                ),
                Dist::Built(BuiltDist::DirectUrl(d)) => r == VersionOrUrlRef::Url(&d.url),
                Dist::Built(BuiltDist::Path(d)) => r == VersionOrUrlRef::Url(&d.url),
                Dist::Source(SourceDist::Registry(d)) => r == VersionOrUrlRef::Version(&d.version),
                Dist::Source(SourceDist::DirectUrl(d)) => r == VersionOrUrlRef::Url(&d.url),
                Dist::Source(SourceDist::Git(d)) => r == VersionOrUrlRef::Url(&d.url),
                Dist::Source(SourceDist::Path(d)) => r == VersionOrUrlRef::Url(&d.url),
                Dist::Source(SourceDist::Directory(d)) => r == VersionOrUrlRef::Url(&d.url),
            },
    {
        match self {
            Dist::Built(BuiltDist::Registry(d)) => VersionOrUrlRef::Version(
                &d.best_wheel().filename.version,
            ),
            Dist::Built(BuiltDist::DirectUrl(d)) => VersionOrUrlRef::Url(&d.url),
            Dist::Built(BuiltDist::Path(d)) => VersionOrUrlRef::Url(&d.url),
            Dist::Source(SourceDist::Registry(d)) => VersionOrUrlRef::Version(&d.version),
            Dist::Source(SourceDist::DirectUrl(d)) => VersionOrUrlRef::Url(&d.url),
            Dist::Source(SourceDist::Git(d)) => VersionOrUrlRef::Url(&d.url),
            Dist::Source(SourceDist::Path(d)) => VersionOrUrlRef::Url(&d.url),
            Dist::Source(SourceDist::Directory(d)) => VersionOrUrlRef::Url(&d.url),
        }
    }

    /// The artifact filename this distribution would be fetched as.
    pub fn remote_filename(&self) -> (r: Result<String, Error>)
        requires
            self.wf(),
        ensures
            filename_outcome(self, r),
    {
        match self {
            Dist::Built(BuiltDist::Registry(d)) => d.best_wheel().remote_filename(),
            Dist::Built(BuiltDist::DirectUrl(d)) => d.url.filename(),
            Dist::Built(BuiltDist::Path(d)) => d.url.filename(),
            Dist::Source(SourceDist::Registry(d)) => Ok(d.file.filename.clone()),
            Dist::Source(SourceDist::DirectUrl(d)) => d.url.filename(),
            Dist::Source(SourceDist::Git(d)) => d.remote_filename(),
            Dist::Source(SourceDist::Path(d)) => d.url.filename(),
            Dist::Source(SourceDist::Directory(d)) => d.url.filename(),
        }
    }

    /// The declared size, where a registry declared one.
    pub fn size(&self) -> (r: Option<u64>)
        requires
            self.wf(),
        ensures
            r == spec_dist_size(self),
    {
        match self {
            Dist::Built(BuiltDist::Registry(d)) => d.best_wheel().size(),
            Dist::Source(SourceDist::Registry(d)) => d.file.size,
            _ => None,
        }
    }
}

/// A source location to build from, when the source is a plain locator
/// rather than a classified distribution.
pub enum SourceUrl<'a> {
    Direct(DirectSourceUrl<'a>),
    Git(GitSourceUrl<'a>),
    Path(PathSourceUrl<'a>),
    Directory(DirectorySourceUrl<'a>),
}

pub struct DirectSourceUrl<'a> {
    pub url: &'a Url,
}

pub struct GitSourceUrl<'a> {
    pub url: &'a Url,
}

pub struct PathSourceUrl<'a> {
    pub url: &'a Url,
    pub path: &'a String,
}

pub struct DirectorySourceUrl<'a> {
    pub url: &'a Url,
    pub path: &'a String,
    pub editable: bool,
}

/// The locator a source location keys its identities by.
pub open spec fn source_url_locator<'a>(s: &SourceUrl<'a>) -> &'a Url {
    match s {
        SourceUrl::Direct(x) => x.url,
        SourceUrl::Git(x) => x.url,
        SourceUrl::Path(x) => x.url,
        SourceUrl::Directory(x) => x.url,
    }
}

impl<'a> SourceUrl<'a> {
    /// The identity of this exact content.
    pub fn distribution_id(&self) -> (r: DistributionId)
        ensures
            dist_id_view(&r) == spec_url_dist_id(source_url_locator(self)),
    {
        match self {
            SourceUrl::Direct(x) => url_distribution_id(x.url),
            SourceUrl::Git(x) => url_distribution_id(x.url),
            SourceUrl::Path(x) => url_distribution_id(x.url),
            SourceUrl::Directory(x) => url_distribution_id(x.url),
        }
    }

    /// The identity of the source of artifacts.
    pub fn resource_id(&self) -> (r: ResourceId)
        ensures
            res_id_view(&r) == spec_url_res_id(source_url_locator(self)),
    {
        match self {
            SourceUrl::Direct(x) => url_resource_id(x.url),
            SourceUrl::Git(x) => url_resource_id(x.url),
            SourceUrl::Path(x) => url_resource_id(x.url),
            SourceUrl::Directory(x) => url_resource_id(x.url),
        }
    }
}

/// Anything the builder can be pointed at: a classified source
/// distribution, or a bare source location.
pub enum BuildableSource<'a> {
    Dist(&'a SourceDist),
    Url(SourceUrl<'a>),
}

impl<'a> BuildableSource<'a> {
    /// The identity of this exact content.
    pub fn distribution_id(&self) -> (r: DistributionId)
        ensures
            match self {
                BuildableSource::Dist(s) => dist_id_view(&r) == spec_dist_id(&Dist::Source(**s)),
                BuildableSource::Url(u) => dist_id_view(&r) == spec_url_dist_id(
                    source_url_locator(u),
                ),
            },
    {
        match self {
            BuildableSource::Dist(source) => source.distribution_id(),
            BuildableSource::Url(source) => source.distribution_id(),
        }
    }

    /// The identity of the source of artifacts.
    pub fn resource_id(&self) -> (r: ResourceId)
        ensures
            match self {
                BuildableSource::Dist(s) => res_id_view(&r) == spec_dist_res_id(
                    &Dist::Source(**s),
                ),
                BuildableSource::Url(u) => res_id_view(&r) == spec_url_res_id(
                    source_url_locator(u),
                ),
            },
    {
        match self {
            BuildableSource::Dist(source) => source.resource_id(),
            BuildableSource::Url(source) => source.resource_id(),
        }
    }
}

} // verus!
