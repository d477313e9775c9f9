//! Identity keys.
//!
//! Every distribution yields two keys. The distribution identity names this
//! exact version or content: the first declared content digest when there is
//! one, else a canonicalized locator, else a path. The resource identity
//! names the source of artifacts — the same, but with the per-revision
//! fragment of a locator dropped, so every revision of one repository shares
//! it.

use vstd::prelude::*;
use crate::file::{File, FileLocation};
use crate::strutil::str_eq;
use crate::url::{canonical_text, Url};

verus! {

/// A key identifying one exact version or content.
pub enum DistributionId {
    Digest(String),
    Locator(String),
    LocalPath(String),
    RelativeUrl(String, String),
    AbsoluteUrl(String),
}

/// A key identifying a source of artifacts, common to its revisions.
pub enum ResourceId {
    Digest(String),
    Locator(String),
    LocalPath(String),
    RelativeUrl(String, String),
    AbsoluteUrl(String),
}

/// The value a distribution identity denotes: a tag and the key texts.
pub open spec fn dist_id_view(id: &DistributionId) -> (int, Seq<char>, Seq<char>) {
    match id {
        DistributionId::Digest(d) => (0int, d@, Seq::<char>::empty()),
        DistributionId::Locator(u) => (1int, u@, Seq::<char>::empty()),
        DistributionId::LocalPath(p) => (2int, p@, Seq::<char>::empty()),
        DistributionId::RelativeUrl(b, p) => (3int, b@, p@),
        DistributionId::AbsoluteUrl(u) => (4int, u@, Seq::<char>::empty()),
    }
}

/// The value a resource identity denotes.
pub open spec fn res_id_view(id: &ResourceId) -> (int, Seq<char>, Seq<char>) {
    match id {
        ResourceId::Digest(d) => (0int, d@, Seq::<char>::empty()),
        ResourceId::Locator(u) => (1int, u@, Seq::<char>::empty()),
        ResourceId::LocalPath(p) => (2int, p@, Seq::<char>::empty()),
        ResourceId::RelativeUrl(b, p) => (3int, b@, p@),
        ResourceId::AbsoluteUrl(u) => (4int, u@, Seq::<char>::empty()),
    }
}

/// The value a file location denotes, with the same tags.
pub open spec fn location_view(l: &FileLocation) -> (int, Seq<char>, Seq<char>) {
    match l {
        FileLocation::RelativeUrl { base, path } => (3int, base@, path@),
        FileLocation::AbsoluteUrl { url } => (4int, url@, Seq::<char>::empty()),
        FileLocation::LocalPath { path } => (2int, path@, Seq::<char>::empty()),
    }
}

/// The distribution identity a locator yields.
pub open spec fn spec_url_dist_id(u: &Url) -> (int, Seq<char>, Seq<char>) {
    (1int, canonical_text(u, true), Seq::<char>::empty())
}

/// The resource identity a locator yields: the fragment is dropped.
pub open spec fn spec_url_res_id(u: &Url) -> (int, Seq<char>, Seq<char>) {
    (1int, canonical_text(u, false), Seq::<char>::empty())
}

/// The identity a registry artifact yields: its first declared digest when
/// there is one, else its location.
pub open spec fn spec_file_id(f: &File) -> (int, Seq<char>, Seq<char>) {
    if f.hashes@.len() > 0 {
        (0int, f.hashes@[0]@, Seq::<char>::empty())
    } else {
        location_view(&f.url)
    }
}

impl DistributionId {
    /// Whether two keys are the same.
    pub fn same(&self, other: &DistributionId) -> (r: bool)
        ensures
            r == (dist_id_view(self) == dist_id_view(other)),
    {
        match (self, other) {
            (DistributionId::Digest(a), DistributionId::Digest(b)) => str_eq(
                a.as_str(),
                b.as_str(),
            ),
            (DistributionId::Locator(a), DistributionId::Locator(b)) => str_eq(
                a.as_str(),
                b.as_str(),
            ),
            (DistributionId::LocalPath(a), DistributionId::LocalPath(b)) => str_eq(
                a.as_str(),
                b.as_str(),
            ),
            (DistributionId::RelativeUrl(a, p), DistributionId::RelativeUrl(b, q)) => str_eq(
                a.as_str(),
                b.as_str(),
            ) && str_eq(p.as_str(), q.as_str()),
            (DistributionId::AbsoluteUrl(a), DistributionId::AbsoluteUrl(b)) => str_eq(
                a.as_str(),
                b.as_str(),
            ),
            _ => false,
        }
    }
}

impl ResourceId {
    /// Whether two keys are the same.
    pub fn same(&self, other: &ResourceId) -> (r: bool)
        ensures
            r == (res_id_view(self) == res_id_view(other)),
    {
        match (self, other) {
            (ResourceId::Digest(a), ResourceId::Digest(b)) => str_eq(a.as_str(), b.as_str()),
            (ResourceId::Locator(a), ResourceId::Locator(b)) => str_eq(a.as_str(), b.as_str()),
            (ResourceId::LocalPath(a), ResourceId::LocalPath(b)) => str_eq(a.as_str(), b.as_str()),
            (ResourceId::RelativeUrl(a, p), ResourceId::RelativeUrl(b, q)) => str_eq(
                a.as_str(),
                b.as_str(),
            ) && str_eq(p.as_str(), q.as_str()),
            (ResourceId::AbsoluteUrl(a), ResourceId::AbsoluteUrl(b)) => str_eq(
                a.as_str(),
                b.as_str(),
            ),
            _ => false,
        }
    }
}

/// The distribution identity of a locator.
pub fn url_distribution_id(u: &Url) -> (r: DistributionId)
    ensures
        dist_id_view(&r) == spec_url_dist_id(u),
{
    DistributionId::Locator(u.distribution_key())
}

/// The resource identity of a locator.
pub fn url_resource_id(u: &Url) -> (r: ResourceId)
    ensures
        res_id_view(&r) == spec_url_res_id(u),
{
    ResourceId::Locator(u.resource_key())
}

/// The distribution identity of a registry artifact.
pub fn file_distribution_id(f: &File) -> (r: DistributionId)
    ensures
        dist_id_view(&r) == spec_file_id(f),
{
    if f.hashes.len() > 0 {
        DistributionId::Digest(f.hashes[0].clone())
    } else {
        match &f.url {
            FileLocation::RelativeUrl { base, path } => DistributionId::RelativeUrl(
                base.clone(),
                path.clone(),
            ),
            FileLocation::AbsoluteUrl { url } => DistributionId::AbsoluteUrl(url.clone()),
            FileLocation::LocalPath { path } => DistributionId::LocalPath(path.clone()),
        }
    }
}

/// The resource identity of a registry artifact.
pub fn file_resource_id(f: &File) -> (r: ResourceId)
    ensures
        res_id_view(&r) == spec_file_id(f),
{
    if f.hashes.len() > 0 {
        ResourceId::Digest(f.hashes[0].clone())
    } else {
        match &f.url {
            FileLocation::RelativeUrl { base, path } => ResourceId::RelativeUrl(
                base.clone(),
                path.clone(),
            ),
            FileLocation::AbsoluteUrl { url } => ResourceId::AbsoluteUrl(url.clone()),
            FileLocation::LocalPath { path } => ResourceId::LocalPath(path.clone()),
        }
    }
}

/// The distribution identity of an installed artifact, keyed by its path.
pub fn path_distribution_id(path: &str) -> (r: DistributionId)
    ensures
        dist_id_view(&r) == (2int, path@, Seq::<char>::empty()),
{
    DistributionId::LocalPath(path.to_owned())
}

/// The resource identity of an installed artifact, keyed by its path.
pub fn path_resource_id(path: &str) -> (r: ResourceId)
    ensures
        res_id_view(&r) == (2int, path@, Seq::<char>::empty()),
{
    ResourceId::LocalPath(path.to_owned())
}

} // verus!
