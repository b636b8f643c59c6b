use vstd::prelude::*;

use crate::availability::{IncompletePackage, UnavailablePackage};
use crate::collections::option_key;
use crate::error::{ErrorView, ResolveError};
use crate::package::{ExtraName, PackageName, PackageView, PubGrubPackage, Url};
use crate::range::{Range, Segment};
use crate::request::{Request, RequestView};
use crate::version::{Version, VersionParts};

verus! {

/// What was selected for a package, for a progress report.
pub enum VersionOrUrl {
    Version(Version),
    Url(Url),
}

/// Something to be done outside the resolver, in the order in which it is asked for.
pub enum Effect {
    /// Send a request.
    Send(Request),
    /// Send a request for the versions of a package, unless that was done before.
    FetchVersions(PackageName),
    /// Send a request for the metadata of a distribution, unless that was done before.
    FetchMetadata { id: String, request: Request },
    /// A version of the package is about to be tried.
    Tried(PubGrubPackage),
    /// The package is unavailable.
    MarkUnavailable(PackageName, UnavailablePackage),
    /// The package is unavailable at the version.
    MarkIncomplete(PackageName, Version, IncompletePackage),
    /// The package was selected at the version: further versions in the range may be fetched
    /// ahead of time.
    PrefetchBatches { package: PubGrubPackage, version: Version, range: Range },
    /// Report what was selected for a package.
    Progress(PackageName, VersionOrUrl),
}

/// What the resolver has to be told before it can go on.
#[allow(inconsistent_fields)]
pub enum Query {
    /// Nothing.
    Proceed,
    /// The ranks of the packages.
    Rank,
    /// The metadata of a package that is given by a URL, once it is there.
    Metadata { name: PackageName, url: Url },
    /// The versions of a package, once they are there.
    Versions { name: PackageName },
    /// The best candidate of a package in a range.
    Select { name: PackageName, range: Range },
    /// Whether the package is unavailable, and why.
    Unavailable { name: PackageName },
    /// The dependencies that the requirements stand for.
    RootRequirements,
    /// Whether the metadata of a package is there, once it is clear.
    DirectMetadata { name: PackageName, version: Version, url: Option<Url> },
    /// Whether the package is unavailable, and whether it is installed.
    Availability { name: PackageName },
    /// The metadata of a package at a version, once it is there.
    PackageMetadata { name: PackageName, version: Version, url: Option<Url> },
    /// The dependencies that the metadata of a package at a version stands for.
    PackageRequirements {
        name: PackageName,
        extra: Option<ExtraName>,
        version: Version,
        url: Option<Url>,
    },
    /// Nothing more: the resolution is complete.
    Done,
}

/// What happened in a step: what is to be done, and then what is to be answered, or why the
/// resolution failed.
pub struct Step {
    pub effects: Vec<Effect>,
    pub outcome: Result<Query, ResolveError>,
}

/// What a [`VersionOrUrl`] holds.
pub enum SelectionView {
    Version(VersionParts),
    Url(Seq<char>),
}

/// What an [`Effect`] holds.
pub enum EffectView {
    Send(RequestView),
    FetchVersions(Seq<char>),
    FetchMetadata { id: Seq<char>, request: RequestView },
    Tried(PackageView),
    MarkUnavailable(Seq<char>, UnavailablePackage),
    MarkIncomplete(Seq<char>, VersionParts, IncompletePackage),
    PrefetchBatches { package: PackageView, version: VersionParts, range: Seq<Segment> },
    Progress(Seq<char>, SelectionView),
}

/// What a [`Query`] asks.
#[allow(inconsistent_fields)]
pub enum QueryView {
    Proceed,
    Rank,
    Metadata { name: Seq<char>, url: Seq<char> },
    Versions { name: Seq<char> },
    Select { name: Seq<char>, range: Seq<Segment> },
    Unavailable { name: Seq<char> },
    RootRequirements,
    DirectMetadata { name: Seq<char>, version: VersionParts, url: Option<Seq<char>> },
    Availability { name: Seq<char> },
    PackageMetadata { name: Seq<char>, version: VersionParts, url: Option<Seq<char>> },
    PackageRequirements {
        name: Seq<char>,
        extra: Option<Seq<char>>,
        version: VersionParts,
        url: Option<Seq<char>>,
    },
    Done,
}

/// What a [`Step`] holds.
#[verifier::ext_equal]
pub struct StepView {
    pub effects: Seq<EffectView>,
    pub outcome: Result<QueryView, ErrorView>,
}

impl View for VersionOrUrl {
    type V = SelectionView;

    open spec fn view(&self) -> SelectionView {
        match self {
            VersionOrUrl::Version(version) => SelectionView::Version(version@),
            VersionOrUrl::Url(url) => SelectionView::Url(url@),
        }
    }
}

impl View for Effect {
    type V = EffectView;

    open spec fn view(&self) -> EffectView {
        match self {
            Effect::Send(request) => EffectView::Send(request@),
            Effect::FetchVersions(name) => EffectView::FetchVersions(name@),
            Effect::FetchMetadata { id, request } => EffectView::FetchMetadata {
                id: id@,
                request: request@,
            },
            Effect::Tried(package) => EffectView::Tried(package@),
            Effect::MarkUnavailable(name, reason) => EffectView::MarkUnavailable(name@, *reason),
            Effect::MarkIncomplete(name, version, reason) => EffectView::MarkIncomplete(
                name@,
                version@,
                *reason,
            ),
            Effect::PrefetchBatches { package, version, range } => EffectView::PrefetchBatches {
                package: package@,
                version: version@,
                range: range@,
            },
            Effect::Progress(name, selection) => EffectView::Progress(name@, selection@),
        }
    }
}

impl View for Query {
    type V = QueryView;

    open spec fn view(&self) -> QueryView {
        match self {
            Query::Proceed => QueryView::Proceed,
            Query::Rank => QueryView::Rank,
            Query::Metadata { name, url } => QueryView::Metadata { name: name@, url: url@ },
            Query::Versions { name } => QueryView::Versions { name: name@ },
            Query::Select { name, range } => QueryView::Select { name: name@, range: range@ },
            Query::Unavailable { name } => QueryView::Unavailable { name: name@ },
            Query::RootRequirements => QueryView::RootRequirements,
            Query::DirectMetadata { name, version, url } => QueryView::DirectMetadata {
                name: name@,
                version: version@,
                url: option_key(*url),
            },
            Query::Availability { name } => QueryView::Availability { name: name@ },
            Query::PackageMetadata { name, version, url } => QueryView::PackageMetadata {
                name: name@,
                version: version@,
                url: option_key(*url),
            },
            Query::PackageRequirements { name, extra, version, url } => {
                QueryView::PackageRequirements {
                    name: name@,
                    extra: option_key(*extra),
                    version: version@,
                    url: option_key(*url),
                }
            },
            Query::Done => QueryView::Done,
        }
    }
}

/// What the effects hold, in order.
pub open spec fn effect_views(effects: Seq<Effect>) -> Seq<EffectView> {
    effects.map_values(|effect: Effect| effect@)
}

/// One more effect.
pub proof fn lemma_effect_pushed(effects: Seq<Effect>, effect: Effect)
    ensures
        effect_views(effects.push(effect)) == effect_views(effects).push(effect@),
{
    assert(effect_views(effects.push(effect)) =~= effect_views(effects).push(effect@));
}

impl View for Step {
    type V = StepView;

    open spec fn view(&self) -> StepView {
        StepView {
            effects: effect_views(self.effects@),
            outcome: match self.outcome {
                Ok(query) => Ok(query@),
                Err(error) => Err(error@),
            },
        }
    }
}

} // verus!
