use vstd::prelude::*;

use crate::availability::{
    IncompatibleDist, IncompatibleSource, IncompatibleWheel, IncompletePackage, ResolverVersion,
    UnavailablePackage, UnavailableVersion,
};
use crate::dependencies::{
    first_finding, forked, incomplete_reason, progress, unmarked, visit, visits_effects,
    visits_error, ExpandedView, FindingView,
};
use crate::dist::{Dist, ResolvedDist, ResolvedDistRef};
use crate::error::ErrorView;
use crate::forks::{
    law_every_dependency_is_in_a_fork, law_fork_has_one_range_per_package,
    law_forks_add_no_dependency, DependencyView,
};
use crate::order::strict_total_order;
use crate::package::{PackageView, PubGrubPython};
use crate::pep440::min_version_parts;
use crate::python::{specifier_contains, specifier_parts};
use crate::range::{interval, lemma_interval, segments_have, End, Segment};
use crate::request::{Request, RequestView};
use crate::selection::{
    candidate_choice, candidate_pin, candidate_request, first_choice, metadata_choice,
    metadata_reason, python_reason, versions_reason, Candidate, CandidateDist, ChoiceView, Metadata,
    MetadataResponse, VersionsResponse,
};
use crate::specifier::VersionSpecifier;
use crate::step::{EffectView, SelectionView};
use crate::version::{key_lt, law_versions_are_totally_ordered, Version, VersionKey, VersionParts};

verus! {

/// What is needed to choose a version of a named package depends on its name and its URL alone, the
/// same for a package and for the package of an extra: the metadata at its URL, or the versions of
/// its name if it has none. The range, the Python versions, the extra and the marker have no part
/// in it.
pub proof fn law_named_packages_are_chosen_by_name_and_url(
    name: Seq<char>,
    url: Seq<char>,
    extra: Seq<char>,
    carried: Option<Seq<char>>,
    marker: Option<Seq<char>>,
    range: Seq<Segment>,
    installed: VersionParts,
    target: VersionParts,
)
    ensures
        first_choice(
            PackageView::Package { name, extra: carried, marker, url: Some(url) },
            range,
            installed,
            target,
        ) == (ChoiceView::Metadata { name, url }),
        first_choice(
            PackageView::Extra { name, extra, marker, url: Some(url) },
            range,
            installed,
            target,
        ) == (ChoiceView::Metadata { name, url }),
        first_choice(
            PackageView::Package { name, extra: carried, marker, url: None },
            range,
            installed,
            target,
        ) == (ChoiceView::Versions { name }),
        first_choice(
            PackageView::Extra { name, extra, marker, url: None },
            range,
            installed,
            target,
        ) == (ChoiceView::Versions { name }),
{
}

/// The root is always there, at the same version: its name, the range and the Python versions have
/// no part in it.
pub proof fn law_the_root_is_always_there(
    name: Option<Seq<char>>,
    range: Seq<Segment>,
    installed: VersionParts,
    target: VersionParts,
)
    ensures
        first_choice(PackageView::Root(name), range, installed, target) == ChoiceView::Chosen(
            Some(min_version_parts()),
        ),
{
}

/// Python is there at the version that is installed, or at the one that the resolution is for, if
/// the range holds it, and not at all otherwise.
pub proof fn law_python_is_there_in_its_version(
    range: Seq<Segment>,
    installed: VersionParts,
    target: VersionParts,
)
    ensures
        ({
            let choice = first_choice(
                PackageView::Python(PubGrubPython::Installed),
                range,
                installed,
                target,
            );
            &&& segments_have(range, installed.key()) ==> choice == ChoiceView::Chosen(
                Some(installed),
            )
            &&& !segments_have(range, installed.key()) ==> choice == ChoiceView::Chosen(None)
        }),
        ({
            let choice = first_choice(
                PackageView::Python(PubGrubPython::Target),
                range,
                installed,
                target,
            );
            &&& segments_have(range, target.key()) ==> choice == ChoiceView::Chosen(Some(target))
            &&& !segments_have(range, target.key()) ==> choice == ChoiceView::Chosen(None)
        }),
{
}

/// Whether the target is one of the Python versions that the metadata asks for: every specifier, if
/// there are any, holds of it.
pub open spec fn asks_for(metadata: Metadata, target: VersionParts) -> bool {
    metadata.requires_python matches Some(specifiers) ==> forall|i: int|
        0 <= i < specifiers@.len() ==> specifier_contains((#[trigger] specifiers@[i])@, target)
}

/// Metadata gives its own version and no other: none if the range does not hold it, the version if
/// every specifier on Python holds of the target, and otherwise the version as one that cannot be
/// used, with those specifiers as the reason. It leaves the package available.
pub proof fn law_metadata_gives_its_version(
    metadata: Metadata,
    range: Seq<Segment>,
    target: VersionParts,
)
    ensures
        ({
            let choice = metadata_choice(MetadataResponse::Found(metadata), range, target);
            &&& choice is None <==> !segments_have(range, metadata.version@.key())
            &&& segments_have(range, metadata.version@.key()) && asks_for(metadata, target)
                ==> choice == Some(ResolverVersion::Available(metadata.version))
            &&& segments_have(range, metadata.version@.key()) && !asks_for(metadata, target)
                ==> choice == Some(
                ResolverVersion::Unavailable(
                    metadata.version,
                    UnavailableVersion::IncompatibleDist(
                        IncompatibleDist::Source(
                            IncompatibleSource::RequiresPython(metadata.requires_python->0),
                        ),
                    ),
                ),
            )
        }),
        metadata_reason(MetadataResponse::Found(metadata)) is None,
{
    if let Some(specifiers) = metadata.requires_python {
        let parts = specifier_parts(specifiers@);
        assert forall|i: int| 0 <= i < specifiers@.len() implies #[trigger] parts[i]
            == specifiers@[i]@ by {}
        if asks_for(metadata, target) {
            assert forall|i: int| 0 <= i < parts.len() implies specifier_contains(
                #[trigger] parts[i],
                target,
            ) by {
                assert(specifier_contains(specifiers@[i]@, target));
            }
        }
        if metadata.supports(target) {
            assert forall|i: int| 0 <= i < specifiers@.len() implies specifier_contains(
                (#[trigger] specifiers@[i])@,
                target,
            ) by {
                assert(specifier_contains(parts[i], target));
            }
        }
    }
}

/// Without metadata there is no version, in no range, and the package is unavailable: as offline if
/// it was not fetched, and with what was wrong otherwise.
pub proof fn law_missing_metadata_gives_no_version(
    text: String,
    range: Seq<Segment>,
    target: VersionParts,
)
    ensures
        metadata_choice(MetadataResponse::Offline, range, target) is None,
        metadata_choice(MetadataResponse::InvalidMetadata(text), range, target) is None,
        metadata_choice(MetadataResponse::InconsistentMetadata(text), range, target) is None,
        metadata_choice(MetadataResponse::InvalidStructure(text), range, target) is None,
        metadata_reason(MetadataResponse::<Metadata>::Offline) == Some(UnavailablePackage::Offline),
        metadata_reason(MetadataResponse::<Metadata>::InvalidMetadata(text)) == Some(
            UnavailablePackage::InvalidMetadata(text),
        ),
        metadata_reason(MetadataResponse::<Metadata>::InconsistentMetadata(text)) == Some(
            UnavailablePackage::InvalidMetadata(text),
        ),
        metadata_reason(MetadataResponse::<Metadata>::InvalidStructure(text)) == Some(
            UnavailablePackage::InvalidStructure(text),
        ),
{
}

/// A package is unavailable exactly if its versions were not found, for the reason why they were
/// not.
pub proof fn law_packages_without_versions_are_unavailable<V>(versions: V)
    ensures
        versions_reason(VersionsResponse::Found(versions)) is None,
        versions_reason(VersionsResponse::<V>::NoIndex) == Some(UnavailablePackage::NoIndex),
        versions_reason(VersionsResponse::<V>::Offline) == Some(UnavailablePackage::Offline),
        versions_reason(VersionsResponse::<V>::NotFound) == Some(UnavailablePackage::NotFound),
{
}

/// A version is incomplete exactly if its metadata was not found, and then it cannot be used for
/// the same reason.
pub proof fn law_versions_without_metadata_are_incomplete<A>(archive: A, text: String)
    ensures
        incomplete_reason(MetadataResponse::Found(archive)) is None,
        incomplete_reason(MetadataResponse::<A>::Offline) == Some(
            (IncompletePackage::Offline, UnavailableVersion::Offline),
        ),
        incomplete_reason(MetadataResponse::<A>::InvalidMetadata(text)) == Some(
            (IncompletePackage::InvalidMetadata(text), UnavailableVersion::InvalidMetadata),
        ),
        incomplete_reason(MetadataResponse::<A>::InconsistentMetadata(text)) == Some(
            (
                IncompletePackage::InconsistentMetadata(text),
                UnavailableVersion::InconsistentMetadata,
            ),
        ),
        incomplete_reason(MetadataResponse::<A>::InvalidStructure(text)) == Some(
            (IncompletePackage::InvalidStructure(text), UnavailableVersion::InvalidStructure),
        ),
{
}

/// Without a candidate there is no version, nothing is pinned and nothing is asked for.
pub proof fn law_no_candidate_gives_nothing(package: PackageView)
    ensures
        candidate_choice(None) is None,
        candidate_pin(None) is None,
        candidate_request(None, package) is None,
{
}

/// A candidate with a distribution that can be used gives its own version, pins the distribution
/// for the installation, and asks for the metadata of the one for the resolution, under its
/// identifier. The package of an extra asks for nothing: its package does.
pub proof fn law_compatible_candidates_are_available(
    version: Version,
    id: String,
    for_installation: ResolvedDist,
    for_resolution: ResolvedDistRef,
    package: PackageView,
)
    ensures
        ({
            let candidate = Some(
                Candidate {
                    version,
                    dist: CandidateDist::Compatible { id, for_installation, for_resolution },
                },
            );
            &&& candidate_choice(candidate) == Some(ResolverVersion::Available(version))
            &&& candidate_pin(candidate) == Some(for_installation)
            &&& package is Package ==> candidate_request(candidate, package) == Some(
                (id@, metadata_request(for_resolution)),
            )
            &&& !(package is Package) ==> candidate_request(candidate, package) is None
        }),
{
}

/// The request for the metadata of a distribution that was chosen: of the source distribution or of
/// the wheels that it is among, or of the one that is installed.
pub open spec fn metadata_request(dist: ResolvedDistRef) -> Request {
    match dist {
        ResolvedDistRef::InstallableRegistrySourceDist { prioritized, .. } => Request::Dist(
            Dist::Source((prioritized.source_dist->0).dist),
        ),
        ResolvedDistRef::InstallableRegistryBuiltDist { prioritized, .. } => Request::Dist(
            Dist::Built(prioritized.built_dist->0),
        ),
        ResolvedDistRef::Installed(dist) => Request::Installed(dist),
    }
}

/// A candidate without a distribution that can be used gives its own version as one that cannot be
/// used, for the same reason. Nothing is pinned and nothing is asked for.
pub proof fn law_incompatible_candidates_are_unavailable(
    version: Version,
    reason: IncompatibleDist,
    package: PackageView,
)
    ensures
        ({
            let candidate = Some(
                Candidate { version, dist: CandidateDist::Incompatible(reason) },
            );
            &&& candidate_choice(candidate) == Some(
                ResolverVersion::Unavailable(version, UnavailableVersion::IncompatibleDist(reason)),
            )
            &&& candidate_pin(candidate) is None
            &&& candidate_request(candidate, package) is None
        }),
{
}

/// A version depends on Python exactly if a wheel or a source distribution cannot be used because
/// of the Python versions that it asks for. No other reason is of that kind.
pub proof fn law_python_reasons(
    specifiers: Vec<VersionSpecifier>,
    text: String,
    reason: UnavailableVersion,
)
    ensures
        python_reason(
            UnavailableVersion::IncompatibleDist(
                IncompatibleDist::Wheel(IncompatibleWheel::RequiresPython(specifiers)),
            ),
        ) == Some(specifiers),
        python_reason(
            UnavailableVersion::IncompatibleDist(
                IncompatibleDist::Source(IncompatibleSource::RequiresPython(specifiers)),
            ),
        ) == Some(specifiers),
        python_reason(
            UnavailableVersion::IncompatibleDist(
                IncompatibleDist::Wheel(IncompatibleWheel::Other(text)),
            ),
        ) is None,
        python_reason(
            UnavailableVersion::IncompatibleDist(
                IncompatibleDist::Source(IncompatibleSource::Other(text)),
            ),
        ) is None,
        python_reason(
            UnavailableVersion::IncompatibleDist(IncompatibleDist::Unavailable),
        ) is None,
        !(reason is IncompatibleDist) ==> python_reason(reason) is None,
{
}

/// Visiting a package of a registry fetches its versions, and visiting one that is given by a URL
/// fetches the metadata of its distribution, whatever the range, the extra and the marker. A
/// package that the hash-checking policy does not allow is refused.
pub proof fn law_packages_are_visited(
    name: Seq<char>,
    extra: Option<Seq<char>>,
    marker: Option<Seq<char>>,
    url: Seq<char>,
    range: Seq<Segment>,
    dist: Option<Result<Dist, String>>,
    found: Dist,
    text: String,
)
    ensures
        ({
            let of_registry = PackageView::Package { name, extra, marker, url: None };
            let at_url = PackageView::Package { name, extra, marker, url: Some(url) };
            &&& visit(
                ExpandedView {
                    dependency: DependencyView { package: of_registry, range },
                    allowed: true,
                    dist,
                },
            ) == Ok::<Option<EffectView>, ErrorView>(Some(EffectView::FetchVersions(name)))
            &&& visit(
                ExpandedView {
                    dependency: DependencyView { package: of_registry, range },
                    allowed: false,
                    dist,
                },
            ) == Err::<Option<EffectView>, ErrorView>(ErrorView::UnhashedPackage(name))
            &&& visit(
                ExpandedView {
                    dependency: DependencyView { package: at_url, range },
                    allowed: true,
                    dist: Some(Ok(found)),
                },
            ) == Ok::<Option<EffectView>, ErrorView>(
                Some(
                    EffectView::FetchMetadata { id: found.id(), request: RequestView::Dist(found) },
                ),
            )
            &&& visit(
                ExpandedView {
                    dependency: DependencyView { package: at_url, range },
                    allowed: true,
                    dist: Some(Err(text)),
                },
            ) == Err::<Option<EffectView>, ErrorView>(ErrorView::Distribution(text@))
            &&& visit(
                ExpandedView {
                    dependency: DependencyView { package: at_url, range },
                    allowed: false,
                    dist,
                },
            ) == Err::<Option<EffectView>, ErrorView>(ErrorView::UnhashedPackage(name))
        }),
{
}

/// Visiting the root, Python or the package of an extra does nothing, whatever the policy.
pub proof fn law_other_packages_are_not_visited(entry: ExpandedView)
    requires
        !(entry.dependency.package is Package),
    ensures
        visit(entry) == Ok::<Option<EffectView>, ErrorView>(None),
{
}

/// What visiting one entry fetches.
pub open spec fn fetched_by(entry: ExpandedView) -> Seq<EffectView> {
    match visit(entry) {
        Ok(Some(effect)) => seq![effect],
        _ => Seq::empty(),
    }
}

/// Entries are visited one by one, in order, up to the first that fails: visiting two lists of
/// entries is visiting the first and, unless that fails, the second.
pub proof fn law_entries_are_visited_in_order(first: Seq<ExpandedView>, second: Seq<ExpandedView>)
    ensures
        visits_error(first) is Some ==> visits_error(first + second) == visits_error(first)
            && visits_effects(first + second) == visits_effects(first),
        visits_error(first) is None ==> visits_error(first + second) == visits_error(second)
            && visits_effects(first + second) == visits_effects(first) + visits_effects(second),
    decreases second.len(),
{
    if second.len() == 0 {
        assert(first + second =~= first);
        assert(visits_effects(first) + visits_effects(second) =~= visits_effects(first));
    } else {
        let before = second.drop_last();
        law_entries_are_visited_in_order(first, before);
        assert((first + second).drop_last() =~= first + before);
        assert((first + second).last() == second.last());
        if visits_error(first) is None && visits_error(before) is None {
            assert(visits_effects(first) + visits_effects(second) =~= match visit(second.last()) {
                Ok(Some(effect)) => (visits_effects(first) + visits_effects(before)).push(effect),
                _ => visits_effects(first) + visits_effects(before),
            });
        }
    }
}

/// A single entry is visited as it is, and no entries do nothing.
pub proof fn law_an_entry_is_visited(entry: ExpandedView)
    ensures
        visits_error(Seq::empty()) is None,
        visits_effects(Seq::empty()) == Seq::<EffectView>::empty(),
        visits_effects(seq![entry]) == fetched_by(entry),
        match visit(entry) {
            Ok(_) => visits_error(seq![entry]) is None,
            Err(error) => visits_error(seq![entry]) == Some(error),
        },
{
    let one = seq![entry];
    assert(one.drop_last() =~= Seq::empty());
    assert(one.last() == entry);
    reveal_with_fuel(visits_error, 2);
    reveal_with_fuel(visits_effects, 2);
    assert(visits_effects(one.drop_last()) == Seq::<EffectView>::empty());
    assert(visits_effects(one) =~= fetched_by(entry));
}

/// Whether the range holds the version and no other.
pub open spec fn holds_only(range: Seq<Segment>, version: VersionParts) -> bool {
    forall|key: VersionKey| #[trigger] segments_have(range, key) <==> key == version.key()
}

/// A range from a version to the same version holds it and no other.
proof fn lemma_holds_only(version: VersionParts)
    ensures
        holds_only(interval(End::Included(version), End::Included(version)), version),
{
    let range = interval(End::Included(version), End::Included(version));
    law_versions_are_totally_ordered();
    let lt = |a: VersionKey, b: VersionKey| key_lt(a, b);
    assert(strict_total_order(lt));
    assert forall|key: VersionKey| #[trigger] segments_have(range, key) <==> key
        == version.key() by {
        lemma_interval(End::Included(version), End::Included(version), key);
        assert(!lt(key, key));
        assert(lt(key, version.key()) || lt(version.key(), key) || key == version.key());
    }
}

/// The dependencies of the root are the requirements, Python has none, and those of a package come
/// from its metadata: of which, when only direct dependencies are wanted, it is only asked whether
/// it is there. The version, the extra, the marker and the URL have no part in it.
pub proof fn law_where_dependencies_come_from(package: PackageView, version: VersionParts)
    ensures
        forall|transitive: bool|
            package is Root ==> #[trigger] first_finding(package, version, transitive)
                == FindingView::RootRequirements,
        forall|transitive: bool|
            package is Python ==> #[trigger] first_finding(package, version, transitive)
                == FindingView::Known(Seq::empty()),
        package is Package ==> first_finding(package, version, true) == FindingView::Availability,
        package is Package ==> first_finding(package, version, false)
            == FindingView::DirectMetadata,
        forall|transitive: bool|
            package is Extra ==> #[trigger] first_finding(package, version, transitive) is Known,
{
}

/// The package of an extra depends on exactly two packages, whatever dependencies are wanted: on
/// its package without the extra and on its package with it, of the same marker and URL, each at
/// exactly its own version.
pub proof fn law_extras_depend_on_their_packages(
    name: Seq<char>,
    extra: Seq<char>,
    marker: Option<Seq<char>>,
    url: Option<Seq<char>>,
    version: VersionParts,
    transitive: bool,
)
    ensures
        ({
            let package = PackageView::Extra { name, extra, marker, url };
            first_finding(package, version, transitive) matches FindingView::Known(dependencies)
                && {
                &&& dependencies.len() == 2
                &&& dependencies[0].package == (PackageView::Package {
                    name,
                    extra: None,
                    marker,
                    url,
                })
                &&& dependencies[1].package == (PackageView::Package {
                    name,
                    extra: Some(extra),
                    marker,
                    url,
                })
                &&& holds_only(dependencies[0].range, version)
                &&& holds_only(dependencies[1].range, version)
            }
        }),
{
    lemma_holds_only(version);
}

/// A package with a marker depends on the same package without one, of the same extra and URL, at
/// exactly its own version. A package without a marker, and any other package, does not.
pub proof fn law_marked_packages_depend_on_the_unmarked(
    name: Seq<char>,
    extra: Option<Seq<char>>,
    marker: Seq<char>,
    url: Option<Seq<char>>,
    version: VersionParts,
    other: PackageView,
)
    ensures
        ({
            let more = unmarked(
                PackageView::Package { name, extra, marker: Some(marker), url },
                version,
            );
            &&& more.len() == 1
            &&& more[0].package == (PackageView::Package { name, extra, marker: None, url })
            &&& holds_only(more[0].range, version)
        }),
        unmarked(PackageView::Package { name, extra, marker: None, url }, version).len() == 0,
        !(other is Package) ==> unmarked(other, version).len() == 0,
{
    lemma_holds_only(version);
}

/// For a single environment dependencies stay together. For every environment each of them is in a
/// fork, no fork has others, and in no fork does a name have two ranges.
pub proof fn law_dependencies_are_forked(dependencies: Seq<DependencyView>)
    ensures
        forked(dependencies, false).len() == 1,
        forked(dependencies, false)[0] == dependencies,
        forall|dependency: DependencyView| #[trigger]
            dependencies.contains(dependency) ==> exists|fork: Seq<DependencyView>|
                forked(dependencies, true).contains(fork) && #[trigger] fork.contains(dependency),
        forall|fork: Seq<DependencyView>, dependency: DependencyView|
            forked(dependencies, true).contains(fork) && #[trigger] fork.contains(dependency)
                ==> dependencies.contains(dependency),
        forall|fork: Seq<DependencyView>, i: int, j: int|
            #![trigger forked(dependencies, true).contains(fork), fork[i], fork[j]]
            forked(dependencies, true).contains(fork) && 0 <= i < fork.len() && 0 <= j < fork.len()
                && fork[i].package.name() == fork[j].package.name() ==> fork[i].range_key()
                == fork[j].range_key(),
{
    assert forall|dependency: DependencyView| #[trigger]
        dependencies.contains(dependency) implies exists|fork: Seq<DependencyView>|
        forked(dependencies, true).contains(fork) && #[trigger] fork.contains(dependency) by {
        law_every_dependency_is_in_a_fork(dependencies, dependency);
    }
    assert forall|fork: Seq<DependencyView>, dependency: DependencyView|
        forked(dependencies, true).contains(fork) && #[trigger] fork.contains(
            dependency,
        ) implies dependencies.contains(dependency) by {
        law_forks_add_no_dependency(dependencies, fork, dependency);
    }
    assert forall|fork: Seq<DependencyView>, i: int, j: int|
        #![trigger forked(dependencies, true).contains(fork), fork[i], fork[j]]
        forked(dependencies, true).contains(fork) && 0 <= i < fork.len() && 0 <= j < fork.len()
            && fork[i].package.name() == fork[j].package.name() implies fork[i].range_key()
        == fork[j].range_key() by {
        law_fork_has_one_range_per_package(dependencies, fork, i, j);
    }
}

/// Progress is reported of packages, with their URL if they have one and with their version
/// otherwise, whatever their extra and marker, and of nothing else.
pub proof fn law_progress_is_reported_of_packages(
    name: Seq<char>,
    extra: Option<Seq<char>>,
    marker: Option<Seq<char>>,
    url: Seq<char>,
    version: VersionParts,
    other: PackageView,
)
    ensures
        progress(PackageView::Package { name, extra, marker, url: Some(url) }, version) == Some(
            EffectView::Progress(name, SelectionView::Url(url)),
        ),
        progress(PackageView::Package { name, extra, marker, url: None }, version) == Some(
            EffectView::Progress(name, SelectionView::Version(version)),
        ),
        !(other is Package) ==> progress(other, version) is None,
{
}

} // verus!
