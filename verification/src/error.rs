use vstd::prelude::*;

use crate::dist::{BuiltDist, InstalledDist, SourceDist};
use crate::package::{PackageName, PackageView, PubGrubPackage};
use crate::solver::{NoSolution, Told};
use crate::specifier::{InvalidTildeEquals, SpecifierParts};
use crate::version::{Version, VersionParts};

verus! {

/// Why a resolution failed.
pub enum ResolveError {
    /// There is no set of versions that satisfies the requirements.
    NoSolution(NoSolution),
    /// The other side of a channel is gone.
    ChannelClosed,
    /// Metadata was awaited that nobody was asked to fetch.
    Unregistered,
    /// The package is not allowed, since it has no hash.
    UnhashedPackage(PackageName),
    /// A step that should not have been possible.
    Failure(String),
    /// The package depends on itself.
    SelfDependency { package: PubGrubPackage, version: Version },
    /// The specifier is `~=` on a release of a single number.
    InvalidTildeEquals(InvalidTildeEquals),
    /// The versions of a package could not be fetched.
    Client(String),
    /// A wheel on disk could not be read.
    Read(BuiltDist, String),
    /// A wheel could not be fetched.
    Fetch(BuiltDist, String),
    /// A source distribution on disk could not be built.
    Build(SourceDist, String),
    /// A source distribution could not be fetched or built.
    FetchAndBuild(SourceDist, String),
    /// The metadata of an installed distribution could not be read.
    ReadInstalled(InstalledDist, String),
    /// Requirements that cannot be expressed as dependencies.
    Requirements(String),
    /// A URL that is not that of a distribution.
    Distribution(String),
}

/// What a [`ResolveError`] holds. Of a missing solution it is what it was concluded from, without
/// the derivation tree.
#[allow(inconsistent_fields)]
pub enum ErrorView {
    /// The steps that the solver had been told, and the package that unit propagation started from.
    NoSolution { told: Seq<Told>, package: u64 },
    ChannelClosed,
    Unregistered,
    UnhashedPackage(Seq<char>),
    Failure(Seq<char>),
    SelfDependency { package: PackageView, version: VersionParts },
    InvalidTildeEquals(SpecifierParts),
    Client(Seq<char>),
    Read(BuiltDist, Seq<char>),
    Fetch(BuiltDist, Seq<char>),
    Build(SourceDist, Seq<char>),
    FetchAndBuild(SourceDist, Seq<char>),
    ReadInstalled(InstalledDist, Seq<char>),
    Requirements(Seq<char>),
    Distribution(Seq<char>),
}

impl View for ResolveError {
    type V = ErrorView;

    open spec fn view(&self) -> ErrorView {
        match self {
            ResolveError::NoSolution(reason) => ErrorView::NoSolution {
                told: reason.told@,
                package: reason.package@,
            },
            ResolveError::ChannelClosed => ErrorView::ChannelClosed,
            ResolveError::Unregistered => ErrorView::Unregistered,
            ResolveError::UnhashedPackage(name) => ErrorView::UnhashedPackage(name@),
            ResolveError::Failure(text) => ErrorView::Failure(text@),
            ResolveError::SelfDependency { package, version } => ErrorView::SelfDependency {
                package: package@,
                version: version@,
            },
            ResolveError::InvalidTildeEquals(error) => ErrorView::InvalidTildeEquals(
                error.specifier@,
            ),
            ResolveError::Client(text) => ErrorView::Client(text@),
            ResolveError::Read(dist, text) => ErrorView::Read(*dist, text@),
            ResolveError::Fetch(dist, text) => ErrorView::Fetch(*dist, text@),
            ResolveError::Build(dist, text) => ErrorView::Build(*dist, text@),
            ResolveError::FetchAndBuild(dist, text) => ErrorView::FetchAndBuild(*dist, text@),
            ResolveError::ReadInstalled(dist, text) => ErrorView::ReadInstalled(*dist, text@),
            ResolveError::Requirements(text) => ErrorView::Requirements(text@),
            ResolveError::Distribution(text) => ErrorView::Distribution(text@),
        }
    }
}

} // verus!
