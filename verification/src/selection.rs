use vstd::prelude::*;

use crate::availability::{
    IncompatibleDist, IncompatibleSource, IncompatibleWheel, ResolverVersion, UnavailablePackage,
    UnavailableVersion,
};
use crate::dist::{ResolvedDist, ResolvedDistRef};
use crate::package::{PackageName, PackageView, PubGrubPackage, PubGrubPython, Url};
use crate::pep440::{min_version, min_version_parts};
use crate::python::{
    all_contain, all_writable, are_writable, requires_python_contains, specifier_parts,
    PythonRequirement,
};
use crate::range::{segments_have, Range, Segment};
use crate::request::Request;
use crate::specifier::VersionSpecifier;
use crate::version::{Edge, Version, VersionParts};

verus! {

/// The response to a request for the metadata of a distribution.
pub enum MetadataResponse<A> {
    /// The metadata was found.
    Found(A),
    /// The metadata was not found in the cache, and network requests are disabled.
    Offline,
    /// The metadata could not be parsed.
    InvalidMetadata(String),
    /// The metadata is inconsistent.
    InconsistentMetadata(String),
    /// The wheel has an invalid structure.
    InvalidStructure(String),
}

/// The response to a request for the versions of a package.
pub enum VersionsResponse<V> {
    /// The package was found in the registry with the included versions.
    Found(V),
    /// The package was not found in the registry: there is none.
    NoIndex,
    /// The package was not found in the cache, and network requests are disabled.
    Offline,
    /// The package was not found in the registry.
    NotFound,
}

/// The metadata of a distribution, as far as it decides on its version.
pub struct Metadata {
    pub version: Version,
    pub requires_python: Option<Vec<VersionSpecifier>>,
}

/// A version of a package that a registry offers, or that is installed.
pub struct Candidate {
    pub version: Version,
    pub dist: CandidateDist,
}

/// The distribution of a candidate.
pub enum CandidateDist {
    /// A distribution that can be used.
    Compatible {
        /// The identifier under which its metadata is kept.
        id: String,
        /// The distribution that is to be installed.
        for_installation: ResolvedDist,
        /// The distribution whose metadata is to be used.
        for_resolution: ResolvedDistRef,
    },
    /// No distribution can be used.
    Incompatible(IncompatibleDist),
}

/// What is needed to choose a version of a package.
pub enum Choice {
    /// Nothing: this is the version, if there is one.
    Chosen(Option<ResolverVersion>),
    /// The metadata of the distribution at the URL.
    Metadata { name: PackageName, url: Url },
    /// The versions of the package.
    Versions { name: PackageName },
}

/// Whether the version can be written and is no edge of a release.
pub open spec fn plain(version: VersionParts) -> bool {
    version.valid() && version.edge is Within
}

/// Whether the version can be written and is no edge of a release.
pub fn is_plain(version: &Version) -> (answer: bool)
    ensures
        answer == plain(version@),
{
    let within = match version.edge {
        Edge::Within => true,
        _ => false,
    };
    within && version.is_valid()
}

impl Metadata {
    /// Whether the version and the specifiers are as PEP 440 has them.
    pub open spec fn wf(&self) -> bool {
        &&& plain(self.version@)
        &&& self.requires_python matches Some(specifiers) ==> all_writable(
            specifier_parts(specifiers@),
        )
    }

    /// Whether the version and the specifiers are as PEP 440 has them.
    pub fn is_wf(&self) -> (answer: bool)
        ensures
            answer == self.wf(),
    {
        let python = match &self.requires_python {
            Some(specifiers) => are_writable(specifiers),
            None => true,
        };
        python && is_plain(&self.version)
    }

    /// Whether the metadata supports the Python version.
    pub open spec fn supports(&self, target: VersionParts) -> bool {
        self.requires_python matches Some(specifiers) ==> all_contain(
            specifier_parts(specifiers@),
            target,
        )
    }

    /// Whether the metadata supports the Python version.
    pub fn is_supporting(&self, target: &Version) -> (answer: bool)
        requires
            self.wf(),
            target@.valid(),
        ensures
            answer == self.supports(target@),
    {
        match &self.requires_python {
            Some(specifiers) => requires_python_contains(specifiers, target),
            None => true,
        }
    }

    /// Whether a version can be chosen by the metadata: where the version is refused because of
    /// the Python versions that it asks for, they can be converted to a range.
    pub open spec fn answers(&self, range: Seq<Segment>, target: VersionParts) -> bool {
        &&& self.wf()
        &&& segments_have(range, self.version@.key()) && !self.supports(target) ==> rangeable(
            (self.requires_python->0)@,
        )
    }

    /// Whether a version can be chosen by the metadata.
    pub fn is_answering(&self, range: &Range, target: &Version) -> (answer: bool)
        requires
            target@.valid(),
        ensures
            answer == self.answers(range@, target@),
    {
        if !self.is_wf() {
            return false;
        }
        if !range.contains(&self.version) || self.is_supporting(target) {
            return true;
        }
        match &self.requires_python {
            Some(specifiers) => are_rangeable(specifiers),
            None => true,
        }
    }
}

/// The Python versions that a distribution asks for, if that is why it cannot be used.
pub open spec fn python_reason(reason: UnavailableVersion) -> Option<Vec<VersionSpecifier>> {
    match reason {
        UnavailableVersion::IncompatibleDist(
            IncompatibleDist::Source(IncompatibleSource::RequiresPython(specifiers)),
        ) => Some(specifiers),
        UnavailableVersion::IncompatibleDist(
            IncompatibleDist::Wheel(IncompatibleWheel::RequiresPython(specifiers)),
        ) => Some(specifiers),
        _ => None,
    }
}

/// The Python versions that a distribution asks for, if that is why it cannot be used, and the
/// reason itself otherwise.
pub fn split_python_reason(reason: UnavailableVersion) -> (split: Result<
    Vec<VersionSpecifier>,
    UnavailableVersion,
>)
    ensures
        split matches Ok(specifiers) ==> python_reason(reason) == Some(specifiers),
        split matches Err(other) ==> other == reason && python_reason(reason) is None,
{
    match reason {
        UnavailableVersion::IncompatibleDist(
            IncompatibleDist::Source(IncompatibleSource::RequiresPython(specifiers)),
        ) => Ok(specifiers),
        UnavailableVersion::IncompatibleDist(
            IncompatibleDist::Wheel(IncompatibleWheel::RequiresPython(specifiers)),
        ) => Ok(specifiers),
        other => Err(other),
    }
}

/// Whether every specifier can be converted to a range, or is refused as one that has none.
pub open spec fn rangeable(specifiers: Seq<VersionSpecifier>) -> bool {
    forall|i: int|
        0 <= i < specifiers.len() ==> (#[trigger] specifier_parts(specifiers)[i]).valid()
            && specifier_parts(specifiers)[i].convertible()
}

/// Whether every specifier can be converted to a range, or is refused as one that has none.
pub fn are_rangeable(specifiers: &Vec<VersionSpecifier>) -> (answer: bool)
    ensures
        answer == rangeable(specifiers@),
{
    for i in 0..specifiers.len()
        invariant
            forall|j: int|
                0 <= j < i ==> (#[trigger] specifier_parts(specifiers@)[j]).valid()
                    && specifier_parts(specifiers@)[j].convertible(),
    {
        assert(specifier_parts(specifiers@)[i as int] == specifiers@[i as int]@);
        if !is_plain(&specifiers[i].version) || !specifiers[i].is_convertible() {
            return false;
        }
    }
    true
}

impl Candidate {
    /// Whether the candidate is one that a selection in the range may come up with.
    pub open spec fn fits(&self, range: Seq<Segment>) -> bool {
        &&& plain(self.version@)
        &&& segments_have(range, self.version@.key())
        &&& match self.dist {
            CandidateDist::Compatible { for_resolution, .. } => for_resolution.consistent(),
            CandidateDist::Incompatible(reason) => python_reason(
                UnavailableVersion::IncompatibleDist(reason),
            ) matches Some(specifiers) ==> rangeable(specifiers@),
        }
    }

    /// Whether the candidate is one that a selection in the range may come up with.
    pub fn is_fit(&self, range: &Range) -> (answer: bool)
        ensures
            answer == self.fits(range@),
    {
        let dist = match &self.dist {
            CandidateDist::Compatible { for_resolution, .. } => for_resolution.is_consistent(),
            CandidateDist::Incompatible(IncompatibleDist::Source(
                IncompatibleSource::RequiresPython(specifiers),
            )) => are_rangeable(specifiers),
            CandidateDist::Incompatible(IncompatibleDist::Wheel(
                IncompatibleWheel::RequiresPython(specifiers),
            )) => are_rangeable(specifiers),
            CandidateDist::Incompatible(_) => true,
        };
        dist && is_plain(&self.version) && range.contains(&self.version)
    }
}

/// What a [`Choice`] needs.
pub enum ChoiceView {
    Chosen(Option<VersionParts>),
    Metadata { name: Seq<char>, url: Seq<char> },
    Versions { name: Seq<char> },
}

/// A version, if it is in the range.
pub open spec fn within(version: VersionParts, range: Seq<Segment>) -> Option<VersionParts> {
    if segments_have(range, version.key()) {
        Some(version)
    } else {
        None
    }
}

/// How the version of a package in a range is chosen: the root has one version, Python the one
/// that is installed or targeted, and every other package needs its metadata or its versions.
pub open spec fn first_choice(
    package: PackageView,
    range: Seq<Segment>,
    installed: VersionParts,
    target: VersionParts,
) -> ChoiceView {
    match package {
        PackageView::Root(_) => ChoiceView::Chosen(Some(min_version_parts())),
        PackageView::Python(PubGrubPython::Installed) => ChoiceView::Chosen(
            within(installed, range),
        ),
        PackageView::Python(PubGrubPython::Target) => ChoiceView::Chosen(within(target, range)),
        PackageView::Extra { name, url: Some(url), .. } => ChoiceView::Metadata { name, url },
        PackageView::Package { name, url: Some(url), .. } => ChoiceView::Metadata { name, url },
        PackageView::Extra { name, url: None, .. } => ChoiceView::Versions { name },
        PackageView::Package { name, url: None, .. } => ChoiceView::Versions { name },
    }
}

/// The version, if it is available.
pub open spec fn available(version: Option<ResolverVersion>) -> Option<VersionParts> {
    match version {
        Some(ResolverVersion::Available(version)) => Some(version@),
        _ => None,
    }
}

/// A version of Python, if it is in the range.
fn choose_python(version: &Version, range: &Range) -> (choice: Option<ResolverVersion>)
    requires
        version@.valid(),
    ensures
        available(choice) == within(version@, range@),
        choice is Some ==> choice->0 is Available,
{
    if range.contains(version) {
        Some(ResolverVersion::Available(version.clone()))
    } else {
        None
    }
}

/// Start to choose the version of a package in a range.
pub fn choose_version(package: &PubGrubPackage, range: &Range, python: &PythonRequirement) -> (choice:
    Choice)
    requires
        python.wf(),
    ensures
        match choice {
            Choice::Chosen(version) => first_choice(
                package@,
                range@,
                python.installed@,
                python.target@,
            ) == ChoiceView::Chosen(available(version)) && (version is Some ==> version->0
                is Available),
            Choice::Metadata { name, url } => first_choice(
                package@,
                range@,
                python.installed@,
                python.target@,
            ) == (ChoiceView::Metadata { name: name@, url: url@ }),
            Choice::Versions { name } => first_choice(
                package@,
                range@,
                python.installed@,
                python.target@,
            ) == (ChoiceView::Versions { name: name@ }),
        },
{
    match package {
        PubGrubPackage::Root(_) => {
            Choice::Chosen(Some(ResolverVersion::Available(min_version())))
        },
        PubGrubPackage::Python(PubGrubPython::Installed) => {
            Choice::Chosen(choose_python(&python.installed, range))
        },
        PubGrubPackage::Python(PubGrubPython::Target) => {
            Choice::Chosen(choose_python(&python.target, range))
        },
        PubGrubPackage::Extra { name, url: Some(url), .. } => {
            Choice::Metadata { name: name.clone(), url: url.clone() }
        },
        PubGrubPackage::Package { name, url: Some(url), .. } => {
            Choice::Metadata { name: name.clone(), url: url.clone() }
        },
        PubGrubPackage::Extra { name, url: None, .. } => Choice::Versions { name: name.clone() },
        PubGrubPackage::Package { name, url: None, .. } => Choice::Versions { name: name.clone() },
    }
}

/// Why a package is unavailable, by the response to a request for its metadata.
pub open spec fn metadata_reason<A>(response: MetadataResponse<A>) -> Option<UnavailablePackage> {
    match response {
        MetadataResponse::Found(_) => None,
        MetadataResponse::Offline => Some(UnavailablePackage::Offline),
        MetadataResponse::InvalidMetadata(text) => Some(UnavailablePackage::InvalidMetadata(text)),
        MetadataResponse::InconsistentMetadata(text) => Some(
            UnavailablePackage::InvalidMetadata(text),
        ),
        MetadataResponse::InvalidStructure(text) => Some(
            UnavailablePackage::InvalidStructure(text),
        ),
    }
}

/// The version that metadata gives: none if it is not in the range, and one that cannot be used if
/// the metadata does not support the target.
pub open spec fn metadata_version(
    metadata: Metadata,
    range: Seq<Segment>,
    supported: bool,
) -> Option<ResolverVersion> {
    if !segments_have(range, metadata.version@.key()) {
        None
    } else if supported {
        Some(ResolverVersion::Available(metadata.version))
    } else {
        Some(
            ResolverVersion::Unavailable(
                metadata.version,
                UnavailableVersion::IncompatibleDist(
                    IncompatibleDist::Source(
                        IncompatibleSource::RequiresPython(metadata.requires_python->0),
                    ),
                ),
            ),
        )
    }
}

/// The version that the metadata of a package at a URL gives, if there is metadata.
pub open spec fn metadata_choice(
    response: MetadataResponse<Metadata>,
    range: Seq<Segment>,
    target: VersionParts,
) -> Option<ResolverVersion> {
    match response {
        MetadataResponse::Found(metadata) => metadata_version(
            metadata,
            range,
            metadata.supports(target),
        ),
        _ => None,
    }
}

/// Choose the version that metadata gives, by whether it supports the target.
pub fn choose_supported(metadata: Metadata, range: &Range, supported: bool) -> (version: Option<
    ResolverVersion,
>)
    requires
        metadata.version@.valid(),
        !supported ==> metadata.requires_python is Some,
    ensures
        version == metadata_version(metadata, range@, supported),
{
    // The version is incompatible with the requirement.
    if !range.contains(&metadata.version) {
        return None;
    }
    // The version is incompatible due to its Python requirement.
    if !supported {
        let reason = UnavailableVersion::IncompatibleDist(
            IncompatibleDist::Source(
                IncompatibleSource::RequiresPython(metadata.requires_python.unwrap()),
            ),
        );
        return Some(ResolverVersion::Unavailable(metadata.version, reason));
    }
    Some(ResolverVersion::Available(metadata.version))
}

/// Choose the version of a package that is given by a URL, by its metadata.
pub fn choose_from_metadata(
    response: MetadataResponse<Metadata>,
    range: &Range,
    target: &Version,
) -> (outcome: (Option<ResolverVersion>, Option<UnavailablePackage>))
    requires
        target@.valid(),
        response matches MetadataResponse::Found(metadata) ==> metadata.wf(),
    ensures
        outcome.0 == metadata_choice(response, range@, target@),
        outcome.1 == metadata_reason(response),
{
    match response {
        MetadataResponse::Found(metadata) => {
            let supported = metadata.is_supporting(target);
            (choose_supported(metadata, range, supported), None)
        },
        MetadataResponse::Offline => (None, Some(UnavailablePackage::Offline)),
        MetadataResponse::InvalidMetadata(text) => {
            (None, Some(UnavailablePackage::InvalidMetadata(text)))
        },
        MetadataResponse::InconsistentMetadata(text) => {
            (None, Some(UnavailablePackage::InvalidMetadata(text)))
        },
        MetadataResponse::InvalidStructure(text) => {
            (None, Some(UnavailablePackage::InvalidStructure(text)))
        },
    }
}

/// Why a package is unavailable, by the response to a request for its versions.
pub open spec fn versions_reason<V>(response: VersionsResponse<V>) -> Option<UnavailablePackage> {
    match response {
        VersionsResponse::Found(_) => None,
        VersionsResponse::NoIndex => Some(UnavailablePackage::NoIndex),
        VersionsResponse::Offline => Some(UnavailablePackage::Offline),
        VersionsResponse::NotFound => Some(UnavailablePackage::NotFound),
    }
}

/// Why a package is unavailable, by the response to a request for its versions.
pub fn unavailable_from_versions<V>(response: &VersionsResponse<V>) -> (reason: Option<
    UnavailablePackage,
>)
    ensures
        reason == versions_reason(*response),
{
    match response {
        VersionsResponse::Found(_) => None,
        VersionsResponse::NoIndex => Some(UnavailablePackage::NoIndex),
        VersionsResponse::Offline => Some(UnavailablePackage::Offline),
        VersionsResponse::NotFound => Some(UnavailablePackage::NotFound),
    }
}

/// A version that the metadata of a package gives lies in the range.
pub proof fn law_version_from_metadata_is_in_range(
    response: MetadataResponse<Metadata>,
    range: Seq<Segment>,
    target: VersionParts,
)
    ensures
        match metadata_choice(response, range, target) {
            Some(ResolverVersion::Available(version)) => segments_have(range, version@.key()),
            Some(ResolverVersion::Unavailable(version, _)) => segments_have(
                range,
                version@.key(),
            ),
            None => true,
        },
{
}

/// What comes of the candidate that was selected for a package.
pub struct Selected {
    /// The version, if there is one.
    pub version: Option<ResolverVersion>,
    /// The distribution that the package is pinned to.
    pub pin: Option<ResolvedDist>,
    /// The request for the metadata of the version, with the identifier of its distribution.
    pub request: Option<(String, Request)>,
}

/// The version that a candidate gives.
pub open spec fn candidate_choice(candidate: Option<Candidate>) -> Option<ResolverVersion> {
    match candidate {
        None => None,
        Some(candidate) => match candidate.dist {
            CandidateDist::Compatible { .. } => Some(ResolverVersion::Available(candidate.version)),
            CandidateDist::Incompatible(reason) => Some(
                ResolverVersion::Unavailable(
                    candidate.version,
                    UnavailableVersion::IncompatibleDist(reason),
                ),
            ),
        },
    }
}

/// The distribution that a candidate pins its package to.
pub open spec fn candidate_pin(candidate: Option<Candidate>) -> Option<ResolvedDist> {
    match candidate {
        Some(
            Candidate { dist: CandidateDist::Compatible { for_installation, .. }, .. },
        ) => Some(for_installation),
        _ => None,
    }
}

/// The request for the metadata of a candidate: none for an extra, whose metadata is that of its
/// base package.
pub open spec fn candidate_request(candidate: Option<Candidate>, package: PackageView) -> Option<
    (Seq<char>, Request),
> {
    match candidate {
        Some(Candidate { dist: CandidateDist::Compatible { id, for_resolution, .. }, .. }) => {
            if package is Package {
                Some((id@, Request::of(for_resolution.chosen())))
            } else {
                None
            }
        },
        _ => None,
    }
}

/// Choose the version of a package, by the candidate that was selected for it.
pub fn choose_from_candidate(candidate: Option<Candidate>, package: &PubGrubPackage) -> (outcome:
    Selected)
    requires
        candidate matches Some(candidate) ==> (candidate.dist matches CandidateDist::Compatible {
            for_resolution,
            ..
        } ==> for_resolution.consistent()),
    ensures
        outcome.version == candidate_choice(candidate),
        outcome.pin == candidate_pin(candidate),
        candidate_request(candidate, package@) == match outcome.request {
            Some((id, request)) => Some((id@, request)),
            None => None,
        },
{
    let candidate = match candidate {
        Some(candidate) => candidate,
        None => {
            return Selected { version: None, pin: None, request: None };
        },
    };
    match candidate.dist {
        CandidateDist::Incompatible(reason) => {
            let reason = UnavailableVersion::IncompatibleDist(reason);
            let version = ResolverVersion::Unavailable(candidate.version, reason);
            Selected { version: Some(version), pin: None, request: None }
        },
        CandidateDist::Compatible { id, for_installation, for_resolution } => {
            let request = match package {
                PubGrubPackage::Package { .. } => Some((id, Request::from(&for_resolution))),
                _ => None,
            };
            let version = ResolverVersion::Available(candidate.version);
            Selected { version: Some(version), pin: Some(for_installation), request }
        },
    }
}

} // verus!
