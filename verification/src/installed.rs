//! Distributions present in the environment.
//!
//! An installed distribution is a built package in the environment's
//! site directory: name, version, install path, and — when it originated
//! from a locator or path rather than a registry — its recorded provenance.

use vstd::prelude::*;
use crate::dist::InstalledVersion;
use crate::id::{dist_id_view, path_distribution_id, path_resource_id, res_id_view,
    DistributionId, ResourceId};
use crate::name::PackageName;
use crate::url::Url;
use crate::version::Version;

verus! {

/// Where an installed distribution came from, as its provenance records.
pub enum InstalledOrigin {
    /// Installed from a registry; no provenance file is written.
    Registry,
    /// Installed from a locator or path, with the recorded locator and
    /// whether it was linked editable.
    Direct { url: Url, editable: bool },
}

/// One distribution present in the environment.
pub struct InstalledDist {
    pub name: PackageName,
    pub version: Version,
    pub path: String,
    pub origin: InstalledOrigin,
}

impl InstalledDist {
    /// Whether this install was linked editable.
    pub open spec fn spec_is_editable(&self) -> bool {
        match self.origin {
            InstalledOrigin::Direct { editable, .. } => editable,
            InstalledOrigin::Registry => false,
        }
    }

    /// Whether this install was linked editable.
    pub fn is_editable(&self) -> (r: bool)
        ensures
            r == self.spec_is_editable(),
    {
        match &self.origin {
            InstalledOrigin::Direct { editable, .. } => *editable,
            InstalledOrigin::Registry => false,
        }
    }

    /// The installed version, with the origin locator when there is one.
    pub fn installed_version(&self) -> (r: InstalledVersion)
        ensures
            match self.origin {
                InstalledOrigin::Registry => r == InstalledVersion::Version(&self.version),
                InstalledOrigin::Direct { .. } => r matches InstalledVersion::Url(u, v) && v
                    == &self.version,
            },
    {
        match &self.origin {
            InstalledOrigin::Registry => InstalledVersion::Version(&self.version),
            InstalledOrigin::Direct { url, .. } => InstalledVersion::Url(url, &self.version),
        }
    }

    /// The identity of this exact content, keyed by the install path.
    pub fn distribution_id(&self) -> (r: DistributionId)
        ensures
            dist_id_view(&r) == (2int, self.path@, Seq::<char>::empty()),
    {
        path_distribution_id(self.path.as_str())
    }

    /// The identity of the source of artifacts, keyed by the install path.
    pub fn resource_id(&self) -> (r: ResourceId)
        ensures
            res_id_view(&r) == (2int, self.path@, Seq::<char>::empty()),
    {
        path_resource_id(self.path.as_str())
    }
}

} // verus!
