use vstd::prelude::*;

use crate::specifier::VersionSpecifier;
use crate::version::Version;

verus! {

/// The package is unavailable and cannot be used.
#[derive(Debug)]
pub enum UnavailablePackage {
    /// Index lookups were disabled (i.e., `--no-index`) and the package was not found in a flat
    /// index (i.e. from `--find-links`).
    NoIndex,
    /// Network requests were disabled (i.e., `--offline`), and the package was not found in the
    /// cache.
    Offline,
    /// The package was not found in the registry.
    NotFound,
    /// The package metadata was invalid.
    InvalidMetadata(String),
    /// The package has an invalid structure.
    InvalidStructure(String),
}

/// The package is unavailable at specific versions.
#[derive(Debug)]
pub enum IncompletePackage {
    /// Network requests were disabled (i.e., `--offline`), and the wheel metadata was not found in
    /// the cache.
    Offline,
    /// The wheel metadata was found, but could not be parsed.
    InvalidMetadata(String),
    /// The wheel metadata was found, but the metadata was inconsistent.
    InconsistentMetadata(String),
    /// The wheel has an invalid structure.
    InvalidStructure(String),
}

impl Clone for UnavailablePackage {
    fn clone(&self) -> (copy: Self)
        ensures
            copy == *self,
    {
        match self {
            UnavailablePackage::NoIndex => UnavailablePackage::NoIndex,
            UnavailablePackage::Offline => UnavailablePackage::Offline,
            UnavailablePackage::NotFound => UnavailablePackage::NotFound,
            UnavailablePackage::InvalidMetadata(text) => {
                UnavailablePackage::InvalidMetadata(text.clone())
            },
            UnavailablePackage::InvalidStructure(text) => {
                UnavailablePackage::InvalidStructure(text.clone())
            },
        }
    }
}

/// Why a source distribution cannot be used.
#[derive(Debug)]
pub enum IncompatibleSource {
    /// It does not support the Python version.
    RequiresPython(Vec<VersionSpecifier>),
    /// Another reason.
    Other(String),
}

/// Why a wheel cannot be used.
#[derive(Debug)]
pub enum IncompatibleWheel {
    /// It does not support the Python version.
    RequiresPython(Vec<VersionSpecifier>),
    /// Another reason.
    Other(String),
}

/// Why no distribution of a version can be used.
#[derive(Debug)]
pub enum IncompatibleDist {
    /// There is an incompatible wheel, or no wheels that can be used.
    Wheel(IncompatibleWheel),
    /// There is an incompatible source distribution, or no source distribution.
    Source(IncompatibleSource),
    /// There are no distributions at all.
    Unavailable,
}

/// Why a package cannot be used at a version.
#[derive(Debug)]
pub enum UnavailableVersion {
    /// No distribution of the version can be used.
    IncompatibleDist(IncompatibleDist),
    /// The metadata could not be parsed.
    InvalidMetadata,
    /// The metadata is inconsistent.
    InconsistentMetadata,
    /// The wheel has an invalid structure.
    InvalidStructure,
    /// The metadata is not in the cache, and network requests are disabled.
    Offline,
    /// Its requirements cannot be resolved.
    ResolverError(String),
}

/// Why a package or a version of it cannot be used.
#[derive(Debug)]
pub enum UnavailableReason {
    /// The package cannot be used at all.
    Package(UnavailablePackage),
    /// The package cannot be used at the version.
    Version(UnavailableVersion),
}

/// What an [`UnavailableVersion`] holds.
pub enum VersionReason {
    IncompatibleDist(IncompatibleDist),
    InvalidMetadata,
    InconsistentMetadata,
    InvalidStructure,
    Offline,
    ResolverError(Seq<char>),
}

/// What an [`UnavailableReason`] holds.
pub enum Reason {
    Package(UnavailablePackage),
    Version(VersionReason),
}

impl View for UnavailableVersion {
    type V = VersionReason;

    open spec fn view(&self) -> VersionReason {
        match self {
            UnavailableVersion::IncompatibleDist(dist) => VersionReason::IncompatibleDist(*dist),
            UnavailableVersion::InvalidMetadata => VersionReason::InvalidMetadata,
            UnavailableVersion::InconsistentMetadata => VersionReason::InconsistentMetadata,
            UnavailableVersion::InvalidStructure => VersionReason::InvalidStructure,
            UnavailableVersion::Offline => VersionReason::Offline,
            UnavailableVersion::ResolverError(text) => VersionReason::ResolverError(text@),
        }
    }
}

impl View for UnavailableReason {
    type V = Reason;

    open spec fn view(&self) -> Reason {
        match self {
            UnavailableReason::Package(reason) => Reason::Package(*reason),
            UnavailableReason::Version(reason) => Reason::Version(reason@),
        }
    }
}

/// The version that was chosen for a package.
#[derive(Debug)]
pub enum ResolverVersion {
    /// A version that can be used.
    Available(Version),
    /// A version that cannot be used, with the reason.
    Unavailable(Version, UnavailableVersion),
}

} // verus!
