use vstd::prelude::*;

use crate::availability::{
    IncompatibleDist, IncompletePackage, Reason, UnavailablePackage, UnavailableReason,
    UnavailableVersion, VersionReason,
};
use crate::collections::Keyed;
use crate::dependencies::{expanded_dependencies, expanded_list, Expanded};
use crate::dist::{BuiltDist, Dist, InstalledDist, SourceDist};
use crate::error::{ErrorView, ResolveError};
use crate::forks::{dependency_list, dependency_lists, Dependency};
use crate::install::{
    lines, Action, ActionView, ExitStatus, MarkersSource, SystemPython, TagsSource, Task, TaskView,
};
use crate::package::{PackageView, PubGrubPackage, PubGrubPython};
use crate::python::specifier_parts;
use crate::range::{segment_keys, Range};
use crate::request::{Request, RequestView};
use crate::resolution::{ResolutionDependencyNames, ResolutionDependencyVersions};
use crate::solver::dependency_views;
use crate::specifier::{InvalidTildeEquals, VersionSpecifier};
use crate::state::prefetched;
use crate::step::{
    effect_views, Effect, EffectView, Query, QueryView, SelectionView, Step, VersionOrUrl,
};
use crate::version::{LocalPart, LocalSegment, Version};

verus! {

/// What an optional text says.
pub open spec fn said(text: Option<String>) -> Option<Seq<char>> {
    match text {
        Some(text) => Some(text@),
        None => None,
    }
}

/// A package is what it says: nothing of it is left out or put elsewhere.
pub proof fn law_packages_say_what_they_are(
    name: String,
    project: Option<String>,
    python: PubGrubPython,
    extra: String,
    carried: Option<String>,
    marker: Option<String>,
    url: Option<String>,
)
    ensures
        PubGrubPackage::Root(project)@ == PackageView::Root(said(project)),
        PubGrubPackage::Python(python)@ == PackageView::Python(python),
        (PubGrubPackage::Extra { name, extra, marker, url })@ == (PackageView::Extra {
            name: name@,
            extra: extra@,
            marker: said(marker),
            url: said(url),
        }),
        (PubGrubPackage::Package { name, extra: carried, marker, url })@ == (PackageView::Package {
            name: name@,
            extra: said(carried),
            marker: said(marker),
            url: said(url),
        }),
{
}

/// A package has the name and the URL that it says, and an extra has those of its package.
pub proof fn law_packages_have_names_and_urls(
    name: Seq<char>,
    project: Option<Seq<char>>,
    python: PubGrubPython,
    extra: Seq<char>,
    carried: Option<Seq<char>>,
    marker: Option<Seq<char>>,
    url: Option<Seq<char>>,
)
    ensures
        PackageView::Root(project).name() is None,
        PackageView::Python(python).name() is None,
        (PackageView::Extra { name, extra, marker, url }).name() == Some(name),
        (PackageView::Extra { name, extra, marker, url }).url() == url,
        (PackageView::Package { name, extra: carried, marker, url }).name() == Some(name),
        (PackageView::Package { name, extra: carried, marker, url }).url() == url,
{
}

/// A version is what it says, part by part.
pub proof fn law_versions_say_what_they_are(version: Version, i: int)
    requires
        0 <= i < version.local@.len(),
    ensures
        version@.epoch == version.epoch,
        version@.release == version.release@,
        version@.pre == version.pre,
        version@.post == version.post,
        version@.dev == version.dev,
        version@.edge == version.edge,
        version@.local.len() == version.local@.len(),
        version.local@[i] matches LocalSegment::Text(text) ==> version@.local[i]
            == LocalPart::Text(text@),
        version.local@[i] matches LocalSegment::Number(number) ==> version@.local[i]
            == LocalPart::Number(number),
{
}

/// A version without a local label is what it says, part by part.
pub proof fn law_public_versions_say_what_they_are(version: Version)
    requires
        version.local@.len() == 0,
    ensures
        version@.epoch == version.epoch,
        version@.release == version.release@,
        version@.pre == version.pre,
        version@.post == version.post,
        version@.dev == version.dev,
        version@.edge == version.edge,
        version@.local.len() == 0,
{
}

/// Specifiers and dependencies are what they say.
pub proof fn law_specifiers_and_dependencies_say_what_they_are(
    specifier: VersionSpecifier,
    dependency: Dependency,
    entry: Expanded,
)
    ensures
        specifier@.operator == specifier.operator,
        specifier@.version == specifier.version@,
        dependency@.package == dependency.package@,
        dependency@.range == dependency.range@,
        entry@.dependency == entry.dependency@,
        entry@.allowed == entry.allowed,
        entry@.dist == entry.dist,
{
}

/// Requests and effects are what they say.
pub proof fn law_effects_say_what_they_are(
    name: String,
    id: String,
    dist: Dist,
    installed: InstalledDist,
    range: Range,
    request: Request,
    package: PubGrubPackage,
    version: Version,
    unavailable: UnavailablePackage,
    incomplete: IncompletePackage,
    selection: VersionOrUrl,
)
    ensures
        Request::Package(name)@ == RequestView::Package(name@),
        Request::Dist(dist)@ == RequestView::Dist(dist),
        Request::Installed(installed)@ == RequestView::Installed(installed),
        Request::Prefetch(name, range)@ == RequestView::Prefetch(name@, range@),
        Effect::Send(request)@ == EffectView::Send(request@),
        Effect::FetchVersions(name)@ == EffectView::FetchVersions(name@),
        (Effect::FetchMetadata { id, request })@ == (EffectView::FetchMetadata {
            id: id@,
            request: request@,
        }),
        Effect::Tried(package)@ == EffectView::Tried(package@),
        Effect::MarkUnavailable(name, unavailable)@ == EffectView::MarkUnavailable(
            name@,
            unavailable,
        ),
        Effect::MarkIncomplete(name, version, incomplete)@ == EffectView::MarkIncomplete(
            name@,
            version@,
            incomplete,
        ),
        (Effect::PrefetchBatches { package, version, range })@ == (EffectView::PrefetchBatches {
            package: package@,
            version: version@,
            range: range@,
        }),
        Effect::Progress(name, selection)@ == EffectView::Progress(name@, selection@),
        VersionOrUrl::Version(version)@ == SelectionView::Version(version@),
        VersionOrUrl::Url(name)@ == SelectionView::Url(name@),
{
}

/// Questions are what they say.
pub proof fn law_questions_say_what_they_are(
    name: String,
    text: String,
    extra: Option<String>,
    url: Option<String>,
    version: Version,
    range: Range,
)
    ensures
        Query::Proceed@ == QueryView::Proceed,
        Query::Rank@ == QueryView::Rank,
        (Query::Metadata { name, url: text })@ == (QueryView::Metadata { name: name@, url: text@ }),
        (Query::Versions { name })@ == (QueryView::Versions { name: name@ }),
        (Query::Select { name, range })@ == (QueryView::Select { name: name@, range: range@ }),
        (Query::Unavailable { name })@ == (QueryView::Unavailable { name: name@ }),
        Query::RootRequirements@ == QueryView::RootRequirements,
        (Query::DirectMetadata { name, version, url })@ == (QueryView::DirectMetadata {
            name: name@,
            version: version@,
            url: said(url),
        }),
        (Query::Availability { name })@ == (QueryView::Availability { name: name@ }),
        (Query::PackageMetadata { name, version, url })@ == (QueryView::PackageMetadata {
            name: name@,
            version: version@,
            url: said(url),
        }),
        (Query::PackageRequirements { name, extra, version, url })@ == (
        QueryView::PackageRequirements {
            name: name@,
            extra: said(extra),
            version: version@,
            url: said(url),
        }),
        Query::Done@ == QueryView::Done,
{
}

/// A step holds its effects, in order, and its outcome.
pub proof fn law_steps_hold_their_effects(step: Step, i: int)
    ensures
        step@.effects.len() == step.effects@.len(),
        0 <= i < step.effects@.len() ==> step@.effects[i] == step.effects@[i]@,
        step.outcome matches Ok(query) ==> step@.outcome == Ok::<QueryView, ErrorView>(query@),
        step.outcome matches Err(error) ==> step@.outcome == Err::<QueryView, ErrorView>(error@),
{
}

/// Errors are what they say.
pub proof fn law_errors_say_what_they_are(
    name: String,
    text: String,
    package: PubGrubPackage,
    version: Version,
    invalid: InvalidTildeEquals,
    built: BuiltDist,
    source: SourceDist,
    installed: InstalledDist,
)
    ensures
        ResolveError::ChannelClosed@ == ErrorView::ChannelClosed,
        ResolveError::Unregistered@ == ErrorView::Unregistered,
        ResolveError::UnhashedPackage(name)@ == ErrorView::UnhashedPackage(name@),
        ResolveError::Failure(text)@ == ErrorView::Failure(text@),
        (ResolveError::SelfDependency { package, version })@ == (ErrorView::SelfDependency {
            package: package@,
            version: version@,
        }),
        ResolveError::InvalidTildeEquals(invalid)@ == ErrorView::InvalidTildeEquals(
            invalid.specifier@,
        ),
        ResolveError::Client(text)@ == ErrorView::Client(text@),
        ResolveError::Read(built, text)@ == ErrorView::Read(built, text@),
        ResolveError::Fetch(built, text)@ == ErrorView::Fetch(built, text@),
        ResolveError::Build(source, text)@ == ErrorView::Build(source, text@),
        ResolveError::FetchAndBuild(source, text)@ == ErrorView::FetchAndBuild(source, text@),
        ResolveError::ReadInstalled(installed, text)@ == ErrorView::ReadInstalled(installed, text@),
        ResolveError::Requirements(text)@ == ErrorView::Requirements(text@),
        ResolveError::Distribution(text)@ == ErrorView::Distribution(text@),
{
}

/// Reasons are what they say.
pub proof fn law_reasons_say_what_they_are(
    package: UnavailablePackage,
    version: UnavailableVersion,
    dist: IncompatibleDist,
    text: String,
)
    ensures
        UnavailableReason::Package(package)@ == Reason::Package(package),
        UnavailableReason::Version(version)@ == Reason::Version(version@),
        UnavailableVersion::IncompatibleDist(dist)@ == VersionReason::IncompatibleDist(dist),
        UnavailableVersion::InvalidMetadata@ == VersionReason::InvalidMetadata,
        UnavailableVersion::InconsistentMetadata@ == VersionReason::InconsistentMetadata,
        UnavailableVersion::InvalidStructure@ == VersionReason::InvalidStructure,
        UnavailableVersion::Offline@ == VersionReason::Offline,
        UnavailableVersion::ResolverError(text)@ == VersionReason::ResolverError(text@),
{
}

/// Tasks are what they say.
pub proof fn law_tasks_say_what_they_are(
    system: SystemPython,
    tags: TagsSource,
    markers: MarkersSource,
    shared: bool,
    root: String,
)
    ensures
        Task::ReadRequirements@ == TaskView::ReadRequirements,
        Task::FindEnvironment(system)@ == TaskView::FindEnvironment(system),
        Task::InitTarget@ == TaskView::InitTarget,
        Task::CheckManaged@ == TaskView::CheckManaged,
        Task::Lock@ == TaskView::Lock,
        Task::ReadSitePackages@ == TaskView::ReadSitePackages,
        Task::CheckSatisfied@ == TaskView::CheckSatisfied,
        Task::MakeTags(tags)@ == TaskView::MakeTags(tags),
        Task::MakeMarkers(markers)@ == TaskView::MakeMarkers(markers),
        Task::CollectHashes@ == TaskView::CollectHashes,
        Task::PrepareClient@ == TaskView::PrepareClient,
        Task::FetchFlatIndex@ == TaskView::FetchFlatIndex,
        (Task::PrepareDispatch { shared })@ == (TaskView::PrepareDispatch { shared }),
        Task::ReadLock(root)@ == TaskView::ReadLock(root@),
        Task::Resolve@ == TaskView::Resolve,
        (Task::Install { separate_dispatch: shared })@ == (TaskView::Install {
            separate_dispatch: shared,
        }),
        Task::DiagnoseResolution@ == TaskView::DiagnoseResolution,
        Task::DiagnoseEnvironment@ == TaskView::DiagnoseEnvironment,
{
}

/// Actions are what they say, message by message.
pub proof fn law_actions_say_what_they_are(
    task: Task,
    messages: Vec<String>,
    heading: String,
    reason: String,
    status: ExitStatus,
    i: int,
)
    ensures
        Action::Perform(task)@ == ActionView::Perform(task@),
        (Action::Exit { messages, status })@ matches ActionView::Exit {
            messages: lines,
            status: own,
        } && own == status && lines.len() == messages@.len() && (0 <= i < messages@.len()
            ==> lines[i] == messages@[i]@),
        (Action::Unsolvable { heading, reason, status })@ == (ActionView::Unsolvable {
            heading: heading@,
            reason: reason@,
            status,
        }),
        Action::Abort(reason)@ == ActionView::Abort(reason@),
{
}

/// A distribution has the identifier and the text that it was given, be it a wheel or a source
/// distribution.
pub proof fn law_distributions_have_their_identifiers(built: BuiltDist, source: SourceDist)
    ensures
        Dist::Built(built).id() == built.id@,
        Dist::Source(source).id() == source.id@,
        Dist::Built(built).text() == built.text@,
        Dist::Source(source).text() == source.text@,
{
}

/// A dependency of a resolution is told apart by both names, both versions and both extras, each
/// on its own side.
pub proof fn law_dependencies_are_told_apart(
    names: ResolutionDependencyNames,
    versions: ResolutionDependencyVersions,
)
    ensures
        names.key().from == names.from@,
        names.key().to == names.to@,
        names.form() == names.key(),
        versions.key().from_version == versions.from_version@.key(),
        versions.key().from_extra == said(versions.from_extra),
        versions.key().to_version == versions.to_version@.key(),
        versions.key().to_extra == said(versions.to_extra),
        versions.form().from_version == versions.from_version@,
        versions.form().from_extra == said(versions.from_extra),
        versions.form().to_version == versions.to_version@,
        versions.form().to_extra == said(versions.to_extra),
{
}

/// Packages are told apart by all that they say, texts by their characters, versions by their place
/// in the order of versions, and ranges by the places of their ends.
pub proof fn law_things_are_told_apart(
    package: PubGrubPackage,
    text: String,
    number: u64,
    version: Version,
    range: Range,
)
    ensures
        package.key() == package@,
        package.form() == package@,
        text.key() == text@,
        text.form() == text@,
        number.key() == number,
        number.form() == number,
        version.key() == version@.key(),
        version.form() == version@,
        range.key() == segment_keys(range@),
        range.form() == range@,
        package.comparable(),
        text.comparable(),
        number.comparable(),
        version.comparable() <==> version@.valid(),
        range.comparable(),
{
}

/// Lists hold what their items hold, item by item.
pub proof fn law_lists_hold_their_items(
    dependencies: Seq<Dependency>,
    forks: Seq<Vec<Dependency>>,
    entries: Seq<Expanded>,
    effects: Seq<Effect>,
    specifiers: Seq<VersionSpecifier>,
    requests: Seq<(String, Range)>,
    priorities: Seq<(u64, Range)>,
    messages: Seq<String>,
    i: int,
)
    ensures
        dependency_list(dependencies).len() == dependencies.len(),
        0 <= i < dependencies.len() ==> dependency_list(dependencies)[i] == dependencies[i]@,
        dependency_lists(forks).len() == forks.len(),
        0 <= i < forks.len() ==> dependency_lists(forks)[i] == dependency_list(forks[i]@),
        expanded_list(entries).len() == entries.len(),
        0 <= i < entries.len() ==> expanded_list(entries)[i] == entries[i]@,
        expanded_dependencies(expanded_list(entries)).len() == entries.len(),
        0 <= i < entries.len() ==> expanded_dependencies(expanded_list(entries))[i]
            == entries[i].dependency@,
        effect_views(effects).len() == effects.len(),
        0 <= i < effects.len() ==> effect_views(effects)[i] == effects[i]@,
        specifier_parts(specifiers).len() == specifiers.len(),
        0 <= i < specifiers.len() ==> specifier_parts(specifiers)[i] == specifiers[i]@,
        prefetched(requests).len() == requests.len(),
        0 <= i < requests.len() ==> prefetched(requests)[i] == (requests[i].0@, requests[i].1@),
        dependency_views(priorities).len() == priorities.len(),
        0 <= i < priorities.len() ==> dependency_views(priorities)[i] == (
            priorities[i].0,
            priorities[i].1@,
        ),
        lines(messages).len() == messages.len(),
        0 <= i < messages.len() ==> lines(messages)[i] == messages[i]@,
{
}

} // verus!
