use vstd::prelude::*;
use vstd::string::StringExecFns;

use crate::availability::{IncompletePackage, UnavailableVersion};
use crate::dist::Dist;
use crate::error::{ErrorView, ResolveError};
use crate::forks::{
    all_named, dependency_list, dependency_lists, forks_of, split_into_forks, Dependencies,
    Dependency, DependencyView,
};
use crate::package::{copy_text, PackageName, PackageView, PubGrubPackage};
use crate::range::{interval, End, Range, Segment};
use crate::request::{Request, RequestView};
use crate::selection::MetadataResponse;
use crate::step::{
    effect_views, lemma_effect_pushed, Effect, EffectView, SelectionView, VersionOrUrl,
};
use crate::text::{uncapitalize, uncapitalized};
use crate::version::{Version, VersionParts};

verus! {

/// A dependency that a requirement stands for, with what is known of its package.
pub struct Expanded {
    pub dependency: Dependency,
    /// Whether the hash-checking policy allows the package.
    pub allowed: bool,
    /// The distribution of a package that is given by a URL, or why there is none.
    pub dist: Option<Result<Dist, String>>,
}

/// What an [`Expanded`] holds.
pub struct ExpandedView {
    pub dependency: DependencyView,
    pub allowed: bool,
    pub dist: Option<Result<Dist, String>>,
}

impl View for Expanded {
    type V = ExpandedView;

    open spec fn view(&self) -> ExpandedView {
        ExpandedView {
            dependency: self.dependency@,
            allowed: self.allowed,
            dist: self.dist,
        }
    }
}

impl ExpandedView {
    /// Whether the distribution of a package that is given by a URL is known.
    pub open spec fn visitable(self) -> bool {
        self.allowed && (self.dependency.package matches PackageView::Package { url, .. }
            && url is Some) ==> self.dist is Some
    }

    /// Whether a requirement can stand for this: it is on a named package, never on the root or on
    /// Python.
    pub open spec fn wf(self) -> bool {
        self.visitable() && self.dependency.package.name() is Some
    }
}

/// What the entries hold, in order.
pub open spec fn expanded_list(entries: Seq<Expanded>) -> Seq<ExpandedView> {
    entries.map_values(|entry: Expanded| entry@)
}

/// Whether a requirement can stand for every entry.
pub open spec fn all_expanded(entries: Seq<ExpandedView>) -> bool {
    forall|i: int| 0 <= i < entries.len() ==> (#[trigger] entries[i]).wf()
}

/// Whether a requirement can stand for every entry.
pub fn are_expanded(entries: &Vec<Expanded>) -> (answer: bool)
    ensures
        answer == all_expanded(expanded_list(entries@)),
{
    let ghost list = expanded_list(entries@);
    for i in 0..entries.len()
        invariant
            list == expanded_list(entries@),
            forall|j: int| 0 <= j < i ==> (#[trigger] list[j]).wf(),
    {
        assert(list[i as int] == entries@[i as int]@);
        let entry = &entries[i];
        let known = match &entry.dependency.package {
            PubGrubPackage::Root(_) => false,
            PubGrubPackage::Python(_) => false,
            PubGrubPackage::Package { url: Some(_), .. } => !entry.allowed || entry.dist.is_some(),
            _ => true,
        };
        if !known {
            return false;
        }
    }
    true
}

/// Whether every entry knows its distribution where it has to.
pub open spec fn all_visitable(entries: Seq<ExpandedView>) -> bool {
    forall|i: int| 0 <= i < entries.len() ==> (#[trigger] entries[i]).visitable()
}

/// The dependencies of the entries, in order.
pub open spec fn expanded_dependencies(entries: Seq<ExpandedView>) -> Seq<DependencyView> {
    entries.map_values(|entry: ExpandedView| entry.dependency)
}

/// What a package asks for before it is selected, to allow its metadata to be fetched in
/// parallel: nothing for an extra, the versions of a package of a registry, and the metadata of
/// one that is given by a URL. Fails if the hash-checking policy does not allow the package.
pub open spec fn visit(entry: ExpandedView) -> Result<Option<EffectView>, ErrorView> {
    match entry.dependency.package {
        PackageView::Package { name, url, .. } => {
            if !entry.allowed {
                Err(ErrorView::UnhashedPackage(name))
            } else if url is None {
                Ok(Some(EffectView::FetchVersions(name)))
            } else {
                match entry.dist->0 {
                    Ok(dist) => Ok(
                        Some(
                            EffectView::FetchMetadata {
                                id: dist.id(),
                                request: RequestView::Dist(dist),
                            },
                        ),
                    ),
                    Err(text) => Err(ErrorView::Distribution(text@)),
                }
            }
        },
        _ => Ok(None),
    }
}

/// Visit a package prior to selection.
pub fn visit_package(entry: &Expanded) -> (visited: Result<Option<Effect>, ResolveError>)
    requires
        entry@.visitable(),
    ensures
        visit(entry@) == match visited {
            Ok(Some(effect)) => Ok(Some(effect@)),
            Ok(None) => Ok(None),
            Err(error) => Err(error@),
        },
{
    match &entry.dependency.package {
        PubGrubPackage::Root(_) => Ok(None),
        PubGrubPackage::Python(_) => Ok(None),
        PubGrubPackage::Extra { .. } => Ok(None),
        PubGrubPackage::Package { name, url: None, .. } => {
            // Verify that the package is allowed under the hash-checking policy.
            if !entry.allowed {
                return Err(ResolveError::UnhashedPackage(name.clone()));
            }
            // Emit a request to fetch the metadata for this package.
            Ok(Some(Effect::FetchVersions(name.clone())))
        },
        PubGrubPackage::Package { name, url: Some(_), .. } => {
            // Verify that the package is allowed under the hash-checking policy.
            if !entry.allowed {
                return Err(ResolveError::UnhashedPackage(name.clone()));
            }
            // Emit a request to fetch the metadata for this distribution.
            match entry.dist.as_ref().unwrap() {
                Ok(dist) => {
                    let id = dist.version_id();
                    Ok(Some(Effect::FetchMetadata { id, request: Request::Dist(dist.clone()) }))
                },
                Err(text) => Err(ResolveError::Distribution(text.clone())),
            }
        },
    }
}

/// The error of the first entry that fails.
pub open spec fn visits_error(entries: Seq<ExpandedView>) -> Option<ErrorView>
    decreases entries.len(),
{
    if entries.len() == 0 {
        None
    } else {
        let before = visits_error(entries.drop_last());
        if before is Some {
            before
        } else {
            match visit(entries.last()) {
                Ok(_) => None,
                Err(error) => Some(error),
            }
        }
    }
}

/// What the entries ask for, up to the first that fails.
pub open spec fn visits_effects(entries: Seq<ExpandedView>) -> Seq<EffectView>
    decreases entries.len(),
{
    if entries.len() == 0 {
        Seq::empty()
    } else {
        let before = visits_effects(entries.drop_last());
        if visits_error(entries.drop_last()) is Some {
            before
        } else {
            match visit(entries.last()) {
                Ok(Some(effect)) => before.push(effect),
                _ => before,
            }
        }
    }
}

/// Once an entry failed, further entries change nothing.
pub proof fn lemma_visits_end(entries: Seq<ExpandedView>, n: int)
    requires
        0 <= n <= entries.len(),
        visits_error(entries.take(n)) is Some,
    ensures
        visits_error(entries) == visits_error(entries.take(n)),
        visits_effects(entries) == visits_effects(entries.take(n)),
    decreases entries.len(),
{
    if n == entries.len() {
        assert(entries.take(n) =~= entries);
    } else {
        assert(entries.drop_last().take(n) =~= entries.take(n));
        lemma_visits_end(entries.drop_last(), n);
    }
}

/// Visit the packages of the entries, up to the first that fails.
pub fn visit_packages(entries: &Vec<Expanded>) -> (visited: (Vec<Effect>, Option<ResolveError>))
    requires
        all_visitable(expanded_list(entries@)),
    ensures
        effect_views(visited.0@) == visits_effects(expanded_list(entries@)),
        visits_error(expanded_list(entries@)) == match visited.1 {
            Some(error) => Some(error@),
            None => None,
        },
{
    let ghost list = expanded_list(entries@);
    let mut effects: Vec<Effect> = Vec::new();
    assert(effect_views(effects@) =~= visits_effects(list.take(0)));
    for i in 0..entries.len()
        invariant
            list == expanded_list(entries@),
            all_visitable(list),
            effect_views(effects@) == visits_effects(list.take(i as int)),
            visits_error(list.take(i as int)) is None,
    {
        assert(list[i as int] == entries@[i as int]@);
        assert(list.take(i + 1).drop_last() =~= list.take(i as int));
        match visit_package(&entries[i]) {
            Ok(Some(effect)) => {
                proof {
                    lemma_effect_pushed(effects@, effect);
                }
                effects.push(effect);
            },
            Ok(None) => {},
            Err(error) => {
                proof {
                    lemma_visits_end(list, i + 1);
                }
                return (effects, Some(error));
            },
        }
    }
    assert(list.take(list.len() as int) =~= list);
    (effects, None)
}

/// What is needed to find the dependencies of a package at a version.
pub enum Finding {
    /// Nothing: these are the dependencies.
    Known(Vec<Dependency>),
    /// The requirements of the resolution.
    RootRequirements,
    /// Whether there is metadata.
    DirectMetadata,
    /// Whether the package is available.
    Availability,
}

/// What a [`Finding`] needs.
pub enum FindingView {
    Known(Seq<DependencyView>),
    RootRequirements,
    DirectMetadata,
    Availability,
}

impl View for Finding {
    type V = FindingView;

    open spec fn view(&self) -> FindingView {
        match self {
            Finding::Known(dependencies) => FindingView::Known(dependency_list(dependencies@)),
            Finding::RootRequirements => FindingView::RootRequirements,
            Finding::DirectMetadata => FindingView::DirectMetadata,
            Finding::Availability => FindingView::Availability,
        }
    }
}

/// The range of a single version.
pub open spec fn exactly(version: VersionParts) -> Seq<Segment> {
    interval(End::Included(version), End::Included(version))
}

/// How the dependencies of a package at a version are found: those of the root are the
/// requirements, Python has none, an extra depends on its base package without and with the
/// extra, and any other package needs its metadata. When only direct dependencies are wanted,
/// it has none, but its metadata has to be there.
pub open spec fn first_finding(
    package: PackageView,
    version: VersionParts,
    transitive: bool,
) -> FindingView {
    match package {
        PackageView::Root(_) => FindingView::RootRequirements,
        PackageView::Python(_) => FindingView::Known(Seq::empty()),
        PackageView::Package { .. } => if transitive {
            FindingView::Availability
        } else {
            FindingView::DirectMetadata
        },
        PackageView::Extra { name, extra, marker, url } => FindingView::Known(
            seq![
                DependencyView {
                    package: PackageView::Package { name, extra: None, marker, url },
                    range: exactly(version),
                },
                DependencyView {
                    package: PackageView::Package { name, extra: Some(extra), marker, url },
                    range: exactly(version),
                },
            ],
        ),
    }
}

/// Start to find the dependencies of a package at a version.
pub fn get_dependencies(package: &PubGrubPackage, version: &Version, transitive: bool) -> (finding:
    Finding)
    requires
        version@.valid(),
    ensures
        finding@ == first_finding(package@, version@, transitive),
{
    match package {
        PubGrubPackage::Root(_) => Finding::RootRequirements,
        PubGrubPackage::Python(_) => {
            let none: Vec<Dependency> = Vec::new();
            assert(dependency_list(none@) =~= Seq::empty());
            Finding::Known(none)
        },
        PubGrubPackage::Package { .. } => {
            // If we're excluding transitive dependencies, short-circuit.
            if transitive {
                Finding::Availability
            } else {
                Finding::DirectMetadata
            }
        },
        // Add a dependency on both the extra and base package.
        PubGrubPackage::Extra { name, extra, marker, url } => {
            let base = Dependency {
                package: PubGrubPackage::Package {
                    name: name.clone(),
                    extra: None,
                    marker: copy_text(marker),
                    url: copy_text(url),
                },
                range: Range::singleton(version),
            };
            let with_extra = Dependency {
                package: PubGrubPackage::Package {
                    name: name.clone(),
                    extra: Some(extra.clone()),
                    marker: copy_text(marker),
                    url: copy_text(url),
                },
                range: Range::singleton(version),
            };
            let mut dependencies: Vec<Dependency> = Vec::new();
            let ghost first = base@;
            let ghost second = with_extra@;
            dependencies.push(base);
            dependencies.push(with_extra);
            assert(dependency_list(dependencies@) =~= seq![first, second]);
            Finding::Known(dependencies)
        },
    }
}

/// Check that the dependencies of a package can be asked for: not if the package is unavailable
/// and not installed either.
pub fn check_availability(name: &PackageName, unavailable: bool, installed: bool) -> (checked:
    Result<(), ResolveError>)
    ensures
        checked is Err <==> unavailable && !installed,
        checked matches Err(error) ==> error@ == ErrorView::Failure(
            "The package is unavailable: "@ + name@,
        ),
{
    if unavailable && !installed {
        let text = "The package is unavailable: ".to_owned().concat(name.as_str());
        Err(ResolveError::Failure(text))
    } else {
        Ok(())
    }
}

/// Why a version is incomplete and cannot be used, by the response to a request for its metadata.
pub open spec fn incomplete_reason<A>(response: MetadataResponse<A>) -> Option<
    (IncompletePackage, UnavailableVersion),
> {
    match response {
        MetadataResponse::Found(_) => None,
        MetadataResponse::Offline => Some(
            (IncompletePackage::Offline, UnavailableVersion::Offline),
        ),
        MetadataResponse::InvalidMetadata(text) => Some(
            (IncompletePackage::InvalidMetadata(text), UnavailableVersion::InvalidMetadata),
        ),
        MetadataResponse::InconsistentMetadata(text) => Some(
            (
                IncompletePackage::InconsistentMetadata(text),
                UnavailableVersion::InconsistentMetadata,
            ),
        ),
        MetadataResponse::InvalidStructure(text) => Some(
            (IncompletePackage::InvalidStructure(text), UnavailableVersion::InvalidStructure),
        ),
    }
}

/// Why a version is incomplete and cannot be used, by the response to a request for its metadata.
pub fn incomplete_from_metadata<A>(response: MetadataResponse<A>) -> (reason: Option<
    (IncompletePackage, UnavailableVersion),
>)
    ensures
        reason == incomplete_reason(response),
{
    match response {
        MetadataResponse::Found(_) => None,
        MetadataResponse::Offline => {
            Some((IncompletePackage::Offline, UnavailableVersion::Offline))
        },
        MetadataResponse::InvalidMetadata(text) => {
            Some((IncompletePackage::InvalidMetadata(text), UnavailableVersion::InvalidMetadata))
        },
        MetadataResponse::InconsistentMetadata(text) => {
            Some(
                (
                    IncompletePackage::InconsistentMetadata(text),
                    UnavailableVersion::InconsistentMetadata,
                ),
            )
        },
        MetadataResponse::InvalidStructure(text) => {
            Some((IncompletePackage::InvalidStructure(text), UnavailableVersion::InvalidStructure))
        },
    }
}

/// Why the root cannot be used, if its requirements cannot be expressed as dependencies.
pub fn root_failure(text: &String) -> (reason: UnavailableVersion)
    ensures
        reason matches UnavailableVersion::ResolverError(reason) && reason@ == uncapitalized(text@),
{
    UnavailableVersion::ResolverError(uncapitalize(text.as_str()))
}

/// The dependency of a package with a marker on the same package without one, at the same
/// version.
pub open spec fn unmarked(package: PackageView, version: VersionParts) -> Seq<DependencyView> {
    match package {
        PackageView::Package { name, extra, marker: Some(_), url } => seq![
            DependencyView {
                package: PackageView::Package { name, extra, marker: None, url },
                range: exactly(version),
            },
        ],
        _ => Seq::empty(),
    }
}

/// The dependencies that the entries stand for.
pub fn take_dependencies(entries: &Vec<Expanded>) -> (dependencies: Vec<Dependency>)
    ensures
        dependency_list(dependencies@) == expanded_dependencies(expanded_list(entries@)),
{
    let ghost list = expanded_dependencies(expanded_list(entries@));
    let mut dependencies: Vec<Dependency> = Vec::new();
    for i in 0..entries.len()
        invariant
            list == expanded_dependencies(expanded_list(entries@)),
            dependency_list(dependencies@) == list.take(i as int),
    {
        let ghost before = dependency_list(dependencies@);
        assert(list[i as int] == entries@[i as int].dependency@);
        dependencies.push(entries[i].dependency.clone());
        assert(dependency_list(dependencies@) =~= before.push(list[i as int]));
        assert(dependency_list(dependencies@) =~= list.take(i + 1));
    }
    assert(list.take(list.len() as int) =~= list);
    dependencies
}

/// If a package has a marker, add a dependency from it to the same package without markers.
/// Otherwise nothing would connect packages with the same name but different markers, which are
/// distinct to the solver.
pub fn with_unmarked(
    dependencies: Vec<Dependency>,
    package: &PubGrubPackage,
    version: &Version,
) -> (all: Vec<Dependency>)
    requires
        version@.valid(),
    ensures
        dependency_list(all@) == dependency_list(dependencies@) + unmarked(package@, version@),
{
    let ghost list = dependency_list(dependencies@);
    let mut dependencies = dependencies;
    if let PubGrubPackage::Package { name, extra, marker: Some(_), url } = package {
        let more = Dependency {
            package: PubGrubPackage::Package {
                name: name.clone(),
                extra: copy_text(extra),
                marker: None,
                url: copy_text(url),
            },
            range: Range::singleton(version),
        };
        let ghost view = more@;
        dependencies.push(more);
        assert(dependency_list(dependencies@) =~= list + seq![view]);
    } else {
        assert(dependency_list(dependencies@) =~= list + Seq::empty());
    }
    dependencies
}

/// The lists of dependencies that each lead to a fork of the resolution: with markers a single
/// one, and without them the forks that [`split_into_forks`] gives.
pub open spec fn forked(dependencies: Seq<DependencyView>, universal: bool) -> Seq<
    Seq<DependencyView>,
> {
    if universal {
        forks_of(dependencies)
    } else {
        seq![dependencies]
    }
}

/// Given the dependencies of a package, return those of each fork.
pub fn get_dependencies_forking(dependencies: Dependencies, universal: bool) -> (forks: Vec<
    Dependencies,
>)
    requires
        dependencies matches Dependencies::Available(list) ==> all_named(dependency_list(list@)),
    ensures
        match dependencies {
            Dependencies::Unavailable(_) => forks@ == seq![dependencies],
            Dependencies::Available(list) => {
                &&& forks@.len() == forked(dependency_list(list@), universal).len()
                &&& forall|i: int|
                    0 <= i < forks@.len() ==> ((#[trigger] forks@[i]) matches
                        Dependencies::Available(fork) && dependency_list(fork@) == forked(
                        dependency_list(list@),
                        universal,
                    )[i])
            },
        },
{
    let mut forks: Vec<Dependencies> = Vec::new();
    match dependencies {
        Dependencies::Unavailable(reason) => {
            forks.push(Dependencies::Unavailable(reason));
        },
        Dependencies::Available(list) => {
            if !universal {
                forks.push(Dependencies::Available(list));
                return forks;
            }
            let ghost all = forks_of(dependency_list(list@));
            let mut rest = split_into_forks(&list);
            let ghost lists = rest@;
            while rest.len() > 0
                invariant
                    all == dependency_lists(lists),
                    rest@.len() + forks@.len() == lists.len(),
                    rest@ == lists.skip(forks@.len() as int),
                    forall|i: int|
                        0 <= i < forks@.len() ==> ((#[trigger] forks@[i]) matches
                            Dependencies::Available(fork) && dependency_list(fork@) == all[i]),
                decreases rest@.len(),
            {
                let ghost k = forks@.len() as int;
                assert(rest@[0] == lists[k]);
                assert(all[k] == dependency_list(lists[k]@));
                let fork = rest.remove(0);
                forks.push(Dependencies::Available(fork));
                assert(rest@ =~= lists.skip(k + 1));
            }
        },
    }
    forks
}

/// What a progress report says of a package that was selected at a version: nothing for the root,
/// Python and extras, the URL of a package that has one, and the version otherwise.
pub open spec fn progress(package: PackageView, version: VersionParts) -> Option<EffectView> {
    match package {
        PackageView::Package { name, url: Some(url), .. } => Some(
            EffectView::Progress(name, SelectionView::Url(url)),
        ),
        PackageView::Package { name, url: None, .. } => Some(
            EffectView::Progress(name, SelectionView::Version(version)),
        ),
        _ => None,
    }
}

/// Report that a package was selected at a version.
pub fn on_progress(package: &PubGrubPackage, version: &Version) -> (report: Option<Effect>)
    ensures
        progress(package@, version@) == match report {
            Some(effect) => Some(effect@),
            None => None,
        },
{
    match package {
        PubGrubPackage::Root(_) => None,
        PubGrubPackage::Python(_) => None,
        PubGrubPackage::Extra { .. } => None,
        PubGrubPackage::Package { name, url: Some(url), .. } => {
            Some(Effect::Progress(name.clone(), VersionOrUrl::Url(url.clone())))
        },
        PubGrubPackage::Package { name, url: None, .. } => {
            Some(Effect::Progress(name.clone(), VersionOrUrl::Version(version.clone())))
        },
    }
}

} // verus!
