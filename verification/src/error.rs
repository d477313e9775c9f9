//! Errors surfaced by classification, aggregation and discovery.

use vstd::prelude::*;

verus! {

/// A fatal fault in the inputs handed to the pipeline.
#[derive(Debug)]
pub enum Error {
    /// The name embedded in an artifact filename disagrees with the
    /// requirement's name.
    PackageNameMismatch { requested: String, in_filename: String, url: String },
    /// A local path named by a `file://` locator does not exist.
    NotFound { url: String },
    /// An editable flag was set on a file or archive; only directories can
    /// be installed editable.
    EditableFile { url: String },
    /// The locator has no path segment to read a filename from.
    UrlFilename { url: String },
    /// The last path segment percent-decodes to text that is not valid.
    UrlDecode { url: String },
    /// An artifact filename does not follow its naming scheme.
    InvalidFilename { filename: String },
}

} // verus!
