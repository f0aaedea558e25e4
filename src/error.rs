//! The failures that the library reports.
use vstd::prelude::*;

verus! {

/// A failure of version resolution, lock building or build-file synthesis.
#[derive(Debug)]
pub enum Error {
    /// `latest` was asked for and there were no tags at all.
    NoTags,
    /// No tag matched the version pattern.
    NoMatchingTag { target: String },
    /// A template could not be rendered.
    Template { template: String },
    /// No resolved versions are known for a name.
    VersionsNotFound { name: String },
    /// A declared version has no resolved counterpart.
    VersionNotFound { name: String, version: String },
    /// No digest was found and the image reference carries no tag.
    NoDigest { image: String },
    /// A build refers to a base that is not in the lock or declaration.
    MissingBase { name: String, version: String },
    /// A build refers to a feature that is not in the lock or declaration.
    MissingFeature { name: String, version: String },
    /// A package-manager step has no recipe for the base's package manager.
    NoInstallationFor { package_manager: String },
    /// Two different bases would open stages of the same name.
    StageConflict { name: String },
    /// A version command printed nothing.
    NoOutput { image: String },
}

} // verus!
