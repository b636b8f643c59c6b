use vstd::prelude::*;

use crate::availability::{
    Reason, ResolverVersion, UnavailablePackage, UnavailableVersion, VersionReason,
};
use crate::dependencies::{
    all_expanded, expanded_dependencies, expanded_list, first_finding, forked, incomplete_reason,
    progress, unmarked, visits_effects, visits_error, Expanded, ExpandedView, FindingView,
};
use crate::error::ErrorView;
use crate::forks::DependencyView;
use crate::package::PackageView;
use crate::python::{all_segments, first_without_range, specifier_parts};
use crate::range::{segments_have, Segment};
use crate::request::RequestView;
use crate::resolver::DependencyMode;
use crate::selection::{
    candidate_choice, candidate_pin, candidate_request, first_choice, metadata_choice,
    metadata_reason, plain, python_reason, versions_reason, Candidate, ChoiceView, Metadata,
    MetadataResponse, VersionsResponse,
};
use crate::solver::{candidates, picked, propagates, settled, Ranks, Told};
use crate::state::{
    initial_view, numbered, prefetches, with_dependencies, with_pythons, ResolutionView, SolveView,
};
use crate::step::{EffectView, QueryView, StepView};
use crate::text::uncapitalized;
use crate::version::VersionParts;

verus! {

/// What the resolver waits for.
pub enum PhaseView {
    /// To go on with the state at hand, or with the next that waits.
    Ready,
    /// The ranks of the packages.
    Ranking,
    /// The metadata of the package that is next.
    Metadata { range: Seq<Segment> },
    /// The versions of the package that is next.
    Versions { range: Seq<Segment> },
    /// The best candidate of the package that is next.
    Candidate { range: Seq<Segment> },
    /// Why the package that is next has no version.
    Reason { range: Seq<Segment> },
    /// The dependencies of the root.
    RootRequirements { version: VersionParts, range: Seq<Segment> },
    /// Whether there is metadata of the package that is next.
    DirectMetadata { version: VersionParts, range: Seq<Segment> },
    /// Whether the package that is next is available.
    Availability { version: VersionParts, range: Seq<Segment> },
    /// The metadata of the package that is next at a version.
    PackageMetadata { version: VersionParts, range: Seq<Segment> },
    /// The dependencies of the package that is next at a version.
    PackageRequirements { version: VersionParts, range: Seq<Segment> },
    /// Nothing more: the resolution is complete.
    Finished,
    /// Nothing more: the resolution failed.
    Failed,
}

/// The dependencies that a package was found to have at a version.
pub struct Listing {
    pub package: PackageView,
    pub version: VersionParts,
    pub dependencies: Seq<DependencyView>,
}

/// What a resolver holds.
#[verifier::ext_equal]
pub struct ResolverView {
    /// Whether the dependencies of dependencies are resolved too.
    pub transitive: bool,
    /// Whether the resolution is for every environment, rather than for one.
    pub universal: bool,
    /// Whether progress is reported.
    pub reporting: bool,
    /// The Python version that is installed.
    pub installed: VersionParts,
    /// The Python version that the resolution is for.
    pub target: VersionParts,
    /// The packages, by their numbers.
    pub table: Seq<PackageView>,
    /// The reasons why packages and versions are unavailable, by their numbers.
    pub reasons: Seq<Reason>,
    /// The packages whose versions were looked at.
    pub visited: Set<Seq<char>>,
    /// The state that is being solved.
    pub current: Option<SolveView>,
    /// The states that are still to be solved, the next one last.
    pub waiting: Seq<SolveView>,
    /// The states that were solved, in order.
    pub finished: Seq<SolveView>,
    /// What each package was found to depend on, in order.
    pub listed: Seq<Listing>,
    /// What was resolved so far.
    pub resolution: ResolutionView,
    pub phase: PhaseView,
}

/// An answer to what the resolver asked.
pub enum Answer {
    Proceed,
    Ranks(Ranks),
    /// `None` if nobody was asked to fetch the metadata.
    Metadata(Option<MetadataResponse<Metadata>>),
    /// `None` if nobody was asked to fetch the versions.
    Versions(Option<VersionsResponse<()>>),
    /// `None` if there is no candidate.
    Candidate(Option<Candidate>),
    /// `None` if the package is not marked as unavailable.
    Reason(Option<UnavailablePackage>),
    /// The dependencies that the requirements stand for, or why there are none.
    RootRequirements(Result<Vec<Expanded>, String>),
    /// Whether somebody was asked to fetch the metadata.
    DirectMetadata(bool),
    /// Whether the package is marked as unavailable, and whether it is installed.
    Availability { unavailable: bool, installed: bool },
    /// `None` if nobody was asked to fetch the metadata.
    PackageMetadata(Option<MetadataResponse<()>>),
    /// The dependencies that the requirements stand for, or why there are none.
    PackageRequirements(Result<Vec<Expanded>, String>),
}

/// The version that was chosen for a package.
pub enum DecisionView {
    Nothing,
    Available(VersionParts),
    Unavailable(VersionParts, UnavailableVersion),
}

/// What was chosen for a package.
pub open spec fn decision(version: Option<ResolverVersion>) -> DecisionView {
    match version {
        None => DecisionView::Nothing,
        Some(ResolverVersion::Available(version)) => DecisionView::Available(version@),
        Some(ResolverVersion::Unavailable(version, reason)) => DecisionView::Unavailable(
            version@,
            reason,
        ),
    }
}

/// The dependencies of a package, or why there are none.
pub enum DependenciesView {
    Unavailable(VersionReason),
    Available(Seq<DependencyView>),
}

/// Whether one of the dependencies is on the package.
pub open spec fn depends_on(dependencies: Seq<DependencyView>, package: PackageView) -> bool {
    exists|i: int| 0 <= i < dependencies.len() && (#[trigger] dependencies[i]).package == package
}

/// The table with the packages of all forks in it.
pub open spec fn fork_table(
    table: Seq<PackageView>,
    forks: Seq<Seq<DependencyView>>,
) -> Seq<PackageView>
    decreases forks.len(),
{
    if forks.len() == 0 {
        table
    } else {
        with_dependencies(fork_table(table, forks.drop_last()), forks.last())
    }
}

/// A state for each fork: each is the state before the fork, with the dependencies of the fork.
pub open spec fn fork_states(
    state: SolveView,
    version: VersionParts,
    table: Seq<PackageView>,
    forks: Seq<Seq<DependencyView>>,
) -> Seq<SolveView>
    decreases forks.len(),
{
    if forks.len() == 0 {
        Seq::empty()
    } else {
        fork_states(state, version, table, forks.drop_last()).push(
            state.tell(
                Told::Version {
                    package: state.next,
                    version,
                    dependencies: numbered(fork_table(table, forks), forks.last()),
                },
            ),
        )
    }
}

/// The effects that send the requests.
pub open spec fn sends(requests: Seq<(Seq<char>, Seq<Segment>)>) -> Seq<EffectView> {
    requests.map_values(
        |request: (Seq<char>, Seq<Segment>)|
            EffectView::Send(RequestView::Prefetch(request.0, request.1)),
    )
}

/// The effect that marks a package as unavailable, if there is a reason.
pub open spec fn marks(name: Seq<char>, reason: Option<UnavailablePackage>) -> Seq<EffectView> {
    match reason {
        Some(reason) => seq![EffectView::MarkUnavailable(name, reason)],
        None => Seq::empty(),
    }
}

impl ResolutionView {
    /// Everything from two resolutions; where both pin a package at a version, the second does.
    pub open spec fn union(self, other: ResolutionView) -> ResolutionView {
        ResolutionView {
            packages: self.packages.union(other.packages),
            dependencies: self.dependencies.union(other.dependencies),
            pins: self.pins.union_prefer_right(other.pins),
        }
    }
}

impl ResolverView {
    /// A resolver of a root package before anything was asked.
    pub open spec fn start(
        root: PackageView,
        dependency_mode: DependencyMode,
        universal: bool,
        installed: VersionParts,
        target: VersionParts,
    ) -> ResolverView {
        ResolverView {
            transitive: dependency_mode is Transitive,
            universal,
            reporting: false,
            installed,
            target,
            table: seq![root],
            reasons: Seq::empty(),
            visited: Set::empty(),
            current: None,
            waiting: seq![initial_view()],
            finished: Seq::empty(),
            listed: Seq::empty(),
            resolution: ResolutionView {
                packages: Set::empty(),
                dependencies: Set::empty(),
                pins: Map::empty(),
            },
            phase: PhaseView::Ready,
        }
    }

    /// The resolver, which reports its progress.
    pub open spec fn reports(self) -> ResolverView {
        ResolverView { reporting: true, ..self }
    }

    /// The state at hand.
    pub open spec fn state(self) -> SolveView {
        self.current->0
    }

    /// The package that is next.
    pub open spec fn package(self) -> PackageView {
        self.table[self.state().next as int]
    }

    /// The name of the package that is next.
    pub open spec fn name(self) -> Seq<char> {
        self.package().name()->0
    }

    /// The resolver with another state at hand.
    pub open spec fn with(self, state: SolveView) -> ResolverView {
        ResolverView { current: Some(state), ..self }
    }

    /// The resolver asks a question.
    pub open spec fn ask(
        self,
        phase: PhaseView,
        effects: Seq<EffectView>,
        query: QueryView,
    ) -> (ResolverView, StepView) {
        (ResolverView { phase, ..self }, StepView { effects, outcome: Ok(query) })
    }

    /// The resolver goes on with the state at hand, or with the next that waits.
    pub open spec fn proceed(self, effects: Seq<EffectView>) -> (ResolverView, StepView) {
        self.ask(PhaseView::Ready, effects, QueryView::Proceed)
    }

    /// The resolution failed.
    pub open spec fn fail(self, effects: Seq<EffectView>, error: ErrorView) -> (
        ResolverView,
        StepView,
    ) {
        (
            ResolverView { phase: PhaseView::Failed, current: None, ..self },
            StepView { effects, outcome: Err(error) },
        )
    }

    /// Go on with the state at hand, or with the one that waits since the shortest time: run unit
    /// propagation and ask for ranks. If no state is left, the resolution is complete.
    pub open spec fn resume(self) -> (ResolverView, StepView) {
        if self.current is None && self.waiting.len() == 0 {
            self.ask(PhaseView::Finished, Seq::empty(), QueryView::Done)
        } else {
            let (base, state) = if self.current is Some {
                (self, self.state())
            } else {
                (
                    ResolverView { waiting: self.waiting.drop_last(), ..self },
                    self.waiting.last(),
                )
            };
            let propagated = state.tell(Told::Propagate { package: state.next });
            if propagates(state.told, state.next) {
                let effects = if self.transitive {
                    sends(prefetches(candidates(propagated.told), self.table))
                } else {
                    Seq::empty()
                };
                base.with(propagated).ask(PhaseView::Ranking, effects, QueryView::Rank)
            } else {
                base.fail(
                    Seq::empty(),
                    ErrorView::NoSolution { told: state.told, package: state.next },
                )
            }
        }
    }

    /// Pick the package to decide on. If there is none, the state is solved.
    pub open spec fn rank(self, ranks: Seq<Option<(u32, usize)>>) -> (ResolverView, StepView) {
        let state = self.state().pick(ranks);
        match picked(self.state().told, ranks) {
            None => ResolverView {
                current: None,
                finished: self.finished.push(state),
                resolution: self.resolution.union(state.resolution(self.table)),
                ..self
            }.proceed(Seq::empty()),
            Some((package, range)) => {
                let tried = seq![EffectView::Tried(self.table[package as int])];
                let next = self.with(state);
                match first_choice(next.package(), range, self.installed, self.target) {
                    ChoiceView::Chosen(Some(version)) => next.conclude(
                        range,
                        tried,
                        DecisionView::Available(version),
                    ),
                    ChoiceView::Chosen(None) => next.conclude(range, tried, DecisionView::Nothing),
                    ChoiceView::Metadata { name, url } => next.ask(
                        PhaseView::Metadata { range },
                        tried,
                        QueryView::Metadata { name, url },
                    ),
                    ChoiceView::Versions { name } => next.ask(
                        PhaseView::Versions { range },
                        tried,
                        QueryView::Versions { name },
                    ),
                }
            },
        }
    }

    /// Choose a version by the metadata of the package.
    pub open spec fn take_metadata(
        self,
        range: Seq<Segment>,
        response: Option<MetadataResponse<Metadata>>,
    ) -> (ResolverView, StepView) {
        match response {
            None => self.fail(Seq::empty(), ErrorView::Unregistered),
            Some(response) => self.conclude(
                range,
                marks(self.name(), metadata_reason(response)),
                decision(metadata_choice(response, range, self.target)),
            ),
        }
    }

    /// Ask for a candidate among the versions of the package.
    pub open spec fn take_versions(
        self,
        range: Seq<Segment>,
        response: Option<VersionsResponse<()>>,
    ) -> (ResolverView, StepView) {
        match response {
            None => self.fail(Seq::empty(), ErrorView::Unregistered),
            Some(response) => ResolverView {
                visited: self.visited.insert(self.name()),
                ..self
            }.ask(
                PhaseView::Candidate { range },
                marks(self.name(), versions_reason(response)),
                QueryView::Select { name: self.name(), range },
            ),
        }
    }

    /// The state with the candidate pinned.
    pub open spec fn pinned(self, candidate: Option<Candidate>) -> SolveView {
        match candidate_pin(candidate) {
            Some(dist) => SolveView {
                pins: self.state().pins.insert(
                    (self.name(), (candidate->0).version@.key()),
                    dist,
                ),
                ..self.state()
            },
            None => self.state(),
        }
    }

    /// Choose the version of the candidate.
    pub open spec fn take_candidate(
        self,
        range: Seq<Segment>,
        candidate: Option<Candidate>,
    ) -> (ResolverView, StepView) {
        self.with(self.pinned(candidate)).conclude(
            range,
            match candidate_request(candidate, self.package()) {
                Some((id, request)) => seq![
                    EffectView::FetchMetadata { id, request: request@ },
                ],
                None => Seq::empty(),
            },
            decision(candidate_choice(candidate)),
        )
    }

    /// What a version that was selected asks for, after the given effects.
    pub open spec fn selected(
        self,
        effects: Seq<EffectView>,
        version: VersionParts,
        range: Seq<Segment>,
    ) -> Seq<EffectView> {
        let batches = effects.push(
            EffectView::PrefetchBatches { package: self.package(), version, range },
        );
        if self.reporting && progress(self.package(), version) is Some {
            batches.push(progress(self.package(), version)->0)
        } else {
            batches
        }
    }

    /// Act on the version that was chosen for the package that is next.
    ///
    /// If there is none, every version in the range is ruled out. A version that cannot be used is
    /// ruled out too, except that one which only some Python versions can use depends on them. An
    /// available version is decided on if its dependencies are already known, and otherwise its
    /// dependencies are found.
    pub open spec fn conclude(
        self,
        range: Seq<Segment>,
        effects: Seq<EffectView>,
        decision: DecisionView,
    ) -> (ResolverView, StepView) {
        let state = self.state();
        match decision {
            DecisionView::Nothing => match self.package() {
                PackageView::Package { name, .. } => self.ask(
                    PhaseView::Reason { range },
                    effects,
                    QueryView::Unavailable { name },
                ),
                _ => self.with(
                    state.tell(Told::NoVersions { package: state.next, range }),
                ).proceed(effects),
            },
            DecisionView::Unavailable(version, reason) => match python_reason(reason) {
                Some(specifiers) => {
                    let parts = specifier_parts(specifiers@);
                    let table = with_pythons(self.table);
                    match first_without_range(parts) {
                        Some(specifier) => self.fail(
                            effects,
                            ErrorView::InvalidTildeEquals(specifier),
                        ),
                        None => ResolverView { table, ..self }.with(
                            state.require_python(version, all_segments(parts), table),
                        ).proceed(effects),
                    }
                },
                None => ResolverView {
                    reasons: self.reasons.push(Reason::Version(reason@)),
                    ..self
                }.with(
                    state.tell(
                        Told::UnavailableVersion {
                            package: state.next,
                            version,
                            reason: self.reasons.len() as usize,
                        },
                    ),
                ).proceed(effects),
            },
            DecisionView::Available(version) => {
                let effects = self.selected(effects, version, range);
                let noted = self.with(state.note(version));
                if state.added_dependencies.contains((state.next, version.key())) {
                    self.with(
                        state.note(version).tell(
                            Told::Decision { package: state.next, version },
                        ),
                    ).proceed(effects)
                } else {
                    noted.find(version, range, effects)
                }
            },
        }
    }

    /// Find the dependencies of the package that is next at a version.
    pub open spec fn find(
        self,
        version: VersionParts,
        range: Seq<Segment>,
        effects: Seq<EffectView>,
    ) -> (ResolverView, StepView) {
        match first_finding(self.package(), version, self.transitive) {
            FindingView::Known(dependencies) => self.settle(
                version,
                effects,
                DependenciesView::Available(dependencies),
            ),
            FindingView::RootRequirements => self.ask(
                PhaseView::RootRequirements { version, range },
                effects,
                QueryView::RootRequirements,
            ),
            FindingView::DirectMetadata => self.ask(
                PhaseView::DirectMetadata { version, range },
                effects,
                QueryView::DirectMetadata { name: self.name(), version, url: self.url() },
            ),
            FindingView::Availability => self.ask(
                PhaseView::Availability { version, range },
                effects,
                QueryView::Availability { name: self.name() },
            ),
        }
    }

    /// The URL of the package that is next.
    pub open spec fn url(self) -> Option<Seq<char>> {
        match self.package() {
            PackageView::Package { url, .. } => url,
            _ => None,
        }
    }

    /// The extra of the package that is next.
    pub open spec fn extra(self) -> Option<Seq<char>> {
        match self.package() {
            PackageView::Package { extra, .. } => extra,
            _ => None,
        }
    }

    /// Rule out every version in the range: the package is unavailable, or has no version there.
    pub open spec fn take_reason(
        self,
        range: Seq<Segment>,
        reason: Option<UnavailablePackage>,
    ) -> (ResolverView, StepView) {
        let state = self.state();
        match reason {
            Some(reason) => ResolverView {
                reasons: self.reasons.push(Reason::Package(reason)),
                ..self
            }.with(
                state.tell(
                    Told::UnavailablePackage {
                        package: state.next,
                        range,
                        reason: self.reasons.len() as usize,
                    },
                ),
            ).proceed(Seq::empty()),
            None => self.with(state.tell(Told::NoVersions { package: state.next, range })).proceed(
                Seq::empty(),
            ),
        }
    }

    /// Take the dependencies of the root. If its requirements cannot be expressed, the root cannot
    /// be used.
    pub open spec fn take_root_requirements(
        self,
        version: VersionParts,
        requirements: Result<Vec<Expanded>, String>,
    ) -> (ResolverView, StepView) {
        match requirements {
            Err(text) => self.settle(
                version,
                Seq::empty(),
                DependenciesView::Unavailable(
                    VersionReason::ResolverError(uncapitalized(text@)),
                ),
            ),
            Ok(entries) => self.expand(version, expanded_list(entries@)),
        }
    }

    /// The package has no dependencies that are wanted, once its metadata is there.
    pub open spec fn take_direct_metadata(self, version: VersionParts, registered: bool) -> (
        ResolverView,
        StepView,
    ) {
        if registered {
            self.settle(version, Seq::empty(), DependenciesView::Available(Seq::empty()))
        } else {
            self.fail(Seq::empty(), ErrorView::Unregistered)
        }
    }

    /// Ask for the metadata of the package, unless it is unavailable and not installed.
    pub open spec fn take_availability(
        self,
        version: VersionParts,
        range: Seq<Segment>,
        unavailable: bool,
        installed: bool,
    ) -> (ResolverView, StepView) {
        if unavailable && !installed {
            self.fail(
                Seq::empty(),
                ErrorView::Failure("The package is unavailable: "@ + self.name()),
            )
        } else {
            self.ask(
                PhaseView::PackageMetadata { version, range },
                Seq::empty(),
                QueryView::PackageMetadata { name: self.name(), version, url: self.url() },
            )
        }
    }

    /// Ask for the dependencies that the metadata stands for. If there is no metadata, the version
    /// cannot be used.
    pub open spec fn take_package_metadata(
        self,
        version: VersionParts,
        range: Seq<Segment>,
        response: Option<MetadataResponse<()>>,
    ) -> (ResolverView, StepView) {
        match response {
            None => self.fail(Seq::empty(), ErrorView::Unregistered),
            Some(response) => match incomplete_reason(response) {
                Some((incomplete, reason)) => self.settle(
                    version,
                    seq![EffectView::MarkIncomplete(self.name(), version, incomplete)],
                    DependenciesView::Unavailable(reason@),
                ),
                None => self.ask(
                    PhaseView::PackageRequirements { version, range },
                    Seq::empty(),
                    QueryView::PackageRequirements {
                        name: self.name(),
                        extra: self.extra(),
                        version,
                        url: self.url(),
                    },
                ),
            },
        }
    }

    /// Take the dependencies of the package.
    pub open spec fn take_package_requirements(
        self,
        version: VersionParts,
        requirements: Result<Vec<Expanded>, String>,
    ) -> (ResolverView, StepView) {
        match requirements {
            Err(text) => self.fail(Seq::empty(), ErrorView::Requirements(text@)),
            Ok(entries) => self.expand(version, expanded_list(entries@)),
        }
    }

    /// Visit the packages that are depended on, note their priorities, and settle the dependencies.
    pub open spec fn expand(self, version: VersionParts, entries: Seq<ExpandedView>) -> (
        ResolverView,
        StepView,
    ) {
        let state = self.state();
        let effects = visits_effects(entries);
        let dependencies = expanded_dependencies(entries);
        let table = with_dependencies(self.table, dependencies);
        match visits_error(entries) {
            Some(error) => self.fail(effects, error),
            None => ResolverView { table, ..self }.with(
                SolveView {
                    priorities: state.priorities + numbered(table, dependencies),
                    ..state
                },
            ).settle(
                version,
                effects,
                DependenciesView::Available(dependencies + unmarked(self.package(), version)),
            ),
        }
    }

    /// Add the package that is next at a version, with its dependencies: one state for each fork
    /// joins those that wait. A package cannot depend on itself.
    pub open spec fn settle(
        self,
        version: VersionParts,
        effects: Seq<EffectView>,
        dependencies: DependenciesView,
    ) -> (ResolverView, StepView) {
        let state = self.state();
        match dependencies {
            DependenciesView::Unavailable(reason) => ResolverView {
                reasons: self.reasons.push(Reason::Version(reason)),
                current: None,
                waiting: self.waiting.push(
                    state.tell(
                        Told::UnavailableVersion {
                            package: state.next,
                            version,
                            reason: self.reasons.len() as usize,
                        },
                    ),
                ),
                ..self
            }.proceed(effects),
            DependenciesView::Available(list) => {
                let forks = forked(list, self.universal);
                if depends_on(list, self.package()) {
                    self.fail(
                        effects,
                        ErrorView::SelfDependency { package: self.package(), version },
                    )
                } else {
                    ResolverView {
                        table: fork_table(self.table, forks),
                        current: None,
                        waiting: self.waiting + fork_states(state, version, self.table, forks),
                        listed: self.listed.push(
                            Listing { package: self.package(), version, dependencies: list },
                        ),
                        ..self
                    }.proceed(effects)
                }
            },
        }
    }

    /// Whether the answer is one that the resolver waits for.
    pub open spec fn expects(self, answer: Answer) -> bool {
        match (self.phase, answer) {
            (PhaseView::Ready, Answer::Proceed) => true,
            (PhaseView::Ranking, Answer::Ranks(_)) => true,
            (PhaseView::Metadata { range }, Answer::Metadata(response)) => response matches Some(
                MetadataResponse::Found(metadata),
            ) ==> metadata.answers(range, self.target),
            (PhaseView::Versions { .. }, Answer::Versions(_)) => true,
            (
                PhaseView::Candidate { range },
                Answer::Candidate(candidate),
            ) => candidate matches Some(candidate) ==> candidate.fits(range),
            (PhaseView::Reason { .. }, Answer::Reason(_)) => true,
            (
                PhaseView::RootRequirements { .. },
                Answer::RootRequirements(requirements),
            ) => requirements matches Ok(entries) ==> all_expanded(expanded_list(entries@)),
            (PhaseView::DirectMetadata { .. }, Answer::DirectMetadata(_)) => true,
            (PhaseView::Availability { .. }, Answer::Availability { .. }) => true,
            (PhaseView::PackageMetadata { .. }, Answer::PackageMetadata(_)) => true,
            (
                PhaseView::PackageRequirements { .. },
                Answer::PackageRequirements(requirements),
            ) => requirements matches Ok(entries) ==> all_expanded(expanded_list(entries@)),
            _ => false,
        }
    }

    /// What an answer leads to.
    pub open spec fn advance(self, answer: Answer) -> (ResolverView, StepView) {
        match (self.phase, answer) {
            (PhaseView::Ranking, Answer::Ranks(ranks)) => self.rank(ranks.ranks@),
            (PhaseView::Metadata { range }, Answer::Metadata(response)) => self.take_metadata(
                range,
                response,
            ),
            (PhaseView::Versions { range }, Answer::Versions(response)) => self.take_versions(
                range,
                response,
            ),
            (PhaseView::Candidate { range }, Answer::Candidate(candidate)) => self.take_candidate(
                range,
                candidate,
            ),
            (PhaseView::Reason { range }, Answer::Reason(reason)) => self.take_reason(
                range,
                reason,
            ),
            (
                PhaseView::RootRequirements { version, .. },
                Answer::RootRequirements(requirements),
            ) => self.take_root_requirements(version, requirements),
            (
                PhaseView::DirectMetadata { version, .. },
                Answer::DirectMetadata(registered),
            ) => self.take_direct_metadata(version, registered),
            (
                PhaseView::Availability { version, range },
                Answer::Availability { unavailable, installed },
            ) => self.take_availability(version, range, unavailable, installed),
            (
                PhaseView::PackageMetadata { version, range },
                Answer::PackageMetadata(response),
            ) => self.take_package_metadata(version, range, response),
            (
                PhaseView::PackageRequirements { version, .. },
                Answer::PackageRequirements(requirements),
            ) => self.take_package_requirements(version, requirements),
            _ => self.resume(),
        }
    }

    /// Whether the resolver is about to decide on the package that is next, in the range.
    pub open spec fn deciding(self, range: Seq<Segment>) -> bool {
        &&& self.current is Some
        &&& self.state().next < self.table.len()
        &&& self.state().deciding(range)
    }

    /// Whether the resolver is about to add a version of the package that is next.
    pub open spec fn adding(self, version: VersionParts, range: Seq<Segment>) -> bool {
        &&& self.deciding(range)
        &&& plain(version)
        &&& segments_have(range, version.key())
    }

    /// Whether what the resolver waits for fits the state at hand.
    pub open spec fn in_phase(self) -> bool {
        match self.phase {
            PhaseView::Ready => self.current matches Some(state) ==> state.due(),
            PhaseView::Ranking => self.current is Some && settled(self.state().told),
            PhaseView::Metadata { range } => self.deciding(range) && self.package().name() is Some,
            PhaseView::Versions { range } => self.deciding(range) && self.package().name() is Some,
            PhaseView::Candidate { range } => self.deciding(range) && self.package().name() is Some,
            PhaseView::Reason { range } => self.deciding(range) && self.package() is Package,
            PhaseView::RootRequirements { version, range } => self.adding(version, range)
                && self.package() is Root,
            PhaseView::DirectMetadata { version, range } => self.adding(version, range)
                && self.package() is Package,
            PhaseView::Availability { version, range } => self.adding(version, range)
                && self.package() is Package,
            PhaseView::PackageMetadata { version, range } => self.adding(version, range)
                && self.package() is Package,
            PhaseView::PackageRequirements { version, range } => self.adding(version, range)
                && self.package() is Package,
            PhaseView::Finished => self.current is None && self.waiting.len() == 0,
            PhaseView::Failed => true,
        }
    }
}

} // verus!
