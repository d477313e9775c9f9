//! Registry artifact records.
//!
//! A registry lists, for each distribution, the artifacts it can serve:
//! each with a filename, declared content digests, a location, an optional
//! size, and an optional yanked marker.

use vstd::prelude::*;

verus! {

/// Where an artifact's content lives.
pub enum FileLocation {
    /// A location written relative to the index page that listed it.
    RelativeUrl { base: String, path: String },
    /// An absolute location.
    AbsoluteUrl { url: String },
    /// A path on the local disk, for flat indexes over directories.
    LocalPath { path: String },
}

/// A registry's yanked marker: withdrawn, with or without a reason.
pub enum Yanked {
    Flag(bool),
    Reason(String),
}

/// One artifact a registry can serve.
pub struct File {
    pub filename: String,
    /// Declared content digests; the first one keys the artifact's identity.
    pub hashes: Vec<String>,
    pub url: FileLocation,
    pub size: Option<u64>,
    pub yanked: Option<Yanked>,
}

impl FileLocation {
    /// A copy of this location.
    pub fn dup(&self) -> (r: FileLocation)
        ensures
            crate::id::location_view(&r) == crate::id::location_view(self),
    {
        match self {
            FileLocation::RelativeUrl { base, path } => FileLocation::RelativeUrl {
                base: base.clone(),
                path: path.clone(),
            },
            FileLocation::AbsoluteUrl { url } => FileLocation::AbsoluteUrl { url: url.clone() },
            FileLocation::LocalPath { path } => FileLocation::LocalPath { path: path.clone() },
        }
    }
}

impl File {
    /// Whether the registry marked this artifact as withdrawn.
    pub open spec fn spec_is_yanked(&self) -> bool {
        match self.yanked {
            None => false,
            Some(Yanked::Flag(b)) => b,
            Some(Yanked::Reason(_)) => true,
        }
    }

    /// Whether the registry marked this artifact as withdrawn.
    pub fn is_yanked(&self) -> (r: bool)
        ensures
            r == self.spec_is_yanked(),
    {
        match &self.yanked {
            None => false,
            Some(Yanked::Flag(b)) => *b,
            Some(Yanked::Reason(_)) => true,
        }
    }

    /// The artifact's filename.
    pub fn filename(&self) -> (r: &str)
        ensures
            r@ == self.filename@,
    {
        self.filename.as_str()
    }

    /// The artifact's size, when the registry declared one.
    pub fn size(&self) -> (r: Option<u64>)
        ensures
            r == self.size,
    {
        self.size
    }

    /// A copy of this record.
    pub fn dup(&self) -> (r: File)
        ensures
            r.filename@ == self.filename@,
            r.hashes@.len() == self.hashes@.len(),
            forall|i: int| 0 <= i < self.hashes@.len() ==> #[trigger] r.hashes@[i]@
                == self.hashes@[i]@,
            crate::id::location_view(&r.url) == crate::id::location_view(&self.url),
            r.size == self.size,
    {
        let mut hashes: Vec<String> = Vec::new();
        let mut i: usize = 0;
        while i < self.hashes.len()
            invariant
                i <= self.hashes.len(),
                hashes@.len() == i,
                forall|k: int| 0 <= k < i ==> #[trigger] hashes@[k]@ == self.hashes@[k]@,
            decreases self.hashes.len() - i,
        {
            hashes.push(self.hashes[i].clone());
            i = i + 1;
        }
        File {
            filename: self.filename.clone(),
            hashes,
            url: self.url.dup(),
            size: self.size,
            yanked: match &self.yanked {
                None => None,
                Some(Yanked::Flag(b)) => Some(Yanked::Flag(*b)),
                Some(Yanked::Reason(t)) => Some(Yanked::Reason(t.clone())),
            },
        }
    }
}

} // verus!
