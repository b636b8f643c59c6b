use vstd::prelude::*;

use crate::availability::{Reason, ResolverVersion, UnavailablePackage, UnavailableReason};
use crate::collections::{forms, new_forms, Keyed, KeyedSet};
use crate::dependencies::{
    all_expanded, are_expanded, check_availability, expanded_dependencies, expanded_list, forked,
    get_dependencies, get_dependencies_forking, incomplete_from_metadata, on_progress, root_failure,
    take_dependencies, unmarked, visit_packages, with_unmarked, Expanded, Finding,
};
use crate::dist::ResolvedDist;
use crate::error::ResolveError;
use crate::forks::{all_named, dependency_list, Dependencies, Dependency};
use crate::package::{copy_text, PackageName, PackageTable, PackageView, PubGrubPackage};
use crate::pep440::min_version_parts;
use crate::promises::{
    law_a_complete_resolution_is_solved, lemma_requirements_resolved, requirements_resolved,
};
use crate::python::{specifiers_range, PythonRequirement};
use crate::range::Range;
use crate::request::Request;
use crate::resolution::{
    all_recorded, edge_at, edge_written_at, has_edge, has_edge_written, solved_forms,
    solved_packages, NamesKey, Resolution, ResolutionDependencyNames, ResolutionDependencyVersions,
    VersionsForm, VersionsKey,
};
use crate::selection::{
    choose_from_candidate, choose_from_metadata, choose_version, plain, python_reason, rangeable,
    split_python_reason, unavailable_from_versions, Candidate, Choice, Metadata, MetadataResponse,
    VersionsResponse,
};
use crate::solver::{
    dependency_views, lemma_needed_picked, needed, respected, settled, solution, Ranks, Told,
};
use crate::soundness::{lemma_advance, lemma_initial, lemma_reporting, pick_fits};
use crate::state::{
    initial_view, number_dependencies, prefetched, with_pythons, ResolutionView, SolveState,
    SolveView,
};
use crate::step::{effect_views, lemma_effect_pushed, Effect, EffectView, Query, Step};
use crate::support::{lemma_fork_members, lemma_with_dependencies, rooted};
use crate::transition::{
    decision, depends_on, fork_states, fork_table, marks, sends, Answer, DependenciesView, Listing,
    PhaseView, ResolverView,
};
use crate::version::{Version, VersionKey, VersionParts};

verus! {

/// Whether the dependencies of dependencies are resolved too.
#[derive(Clone, Copy, Debug, PartialEq, Eq, Structural, Hash)]
pub enum DependencyMode {
    /// Include all dependencies, whether direct or transitive.
    Transitive,
    /// Exclude transitive dependencies, only resolving the root package's immediate dependencies.
    Direct,
}

/// What the resolver waits for.
enum Phase {
    Ready,
    Ranking,
    Metadata { range: Range },
    Versions { range: Range },
    Candidate { range: Range },
    Reason { range: Range },
    RootRequirements { version: Version, range: Range },
    DirectMetadata { version: Version, range: Range },
    Availability { version: Version, range: Range },
    PackageMetadata { version: Version, range: Range },
    PackageRequirements { version: Version, range: Range },
    Finished,
    Failed,
}

impl Phase {
    /// What the phase holds.
    spec fn parts(&self) -> PhaseView {
        match self {
            Phase::Ready => PhaseView::Ready,
            Phase::Ranking => PhaseView::Ranking,
            Phase::Metadata { range } => PhaseView::Metadata { range: range@ },
            Phase::Versions { range } => PhaseView::Versions { range: range@ },
            Phase::Candidate { range } => PhaseView::Candidate { range: range@ },
            Phase::Reason { range } => PhaseView::Reason { range: range@ },
            Phase::RootRequirements { version, range } => PhaseView::RootRequirements {
                version: version@,
                range: range@,
            },
            Phase::DirectMetadata { version, range } => PhaseView::DirectMetadata {
                version: version@,
                range: range@,
            },
            Phase::Availability { version, range } => PhaseView::Availability {
                version: version@,
                range: range@,
            },
            Phase::PackageMetadata { version, range } => PhaseView::PackageMetadata {
                version: version@,
                range: range@,
            },
            Phase::PackageRequirements { version, range } => PhaseView::PackageRequirements {
                version: version@,
                range: range@,
            },
            Phase::Finished => PhaseView::Finished,
            Phase::Failed => PhaseView::Failed,
        }
    }
}

impl Phase {
    /// The same phase again.
    fn duplicate(&self) -> (copy: Self)
        ensures
            copy.parts() == self.parts(),
    {
        match self {
            Phase::Ready => Phase::Ready,
            Phase::Ranking => Phase::Ranking,
            Phase::Metadata { range } => Phase::Metadata { range: range.clone() },
            Phase::Versions { range } => Phase::Versions { range: range.clone() },
            Phase::Candidate { range } => Phase::Candidate { range: range.clone() },
            Phase::Reason { range } => Phase::Reason { range: range.clone() },
            Phase::RootRequirements { version, range } => Phase::RootRequirements {
                version: version.clone(),
                range: range.clone(),
            },
            Phase::DirectMetadata { version, range } => Phase::DirectMetadata {
                version: version.clone(),
                range: range.clone(),
            },
            Phase::Availability { version, range } => Phase::Availability {
                version: version.clone(),
                range: range.clone(),
            },
            Phase::PackageMetadata { version, range } => Phase::PackageMetadata {
                version: version.clone(),
                range: range.clone(),
            },
            Phase::PackageRequirements { version, range } => Phase::PackageRequirements {
                version: version.clone(),
                range: range.clone(),
            },
            Phase::Finished => Phase::Finished,
            Phase::Failed => Phase::Failed,
        }
    }
}

/// Finds a set of pinned versions for a set of requirements.
///
/// The resolver never waits for anything itself. In each step it says what is to be done, and what
/// it has to be told before it can go on.
pub struct Resolver {
    transitive: bool,
    /// Whether no marker environment was given: the resolver is in "universal" mode.
    universal: bool,
    reporting: bool,
    python_requirement: PythonRequirement,
    table: PackageTable,
    reasons: Vec<UnavailableReason>,
    visited: KeyedSet<PackageName>,
    current: Option<SolveState>,
    waiting: Vec<SolveState>,
    finished: Ghost<Seq<SolveView>>,
    listed: Ghost<Seq<Listing>>,
    resolution: Resolution,
    phase: Phase,
}

/// What the reasons hold, in order.
pub open spec fn reason_list(reasons: Seq<UnavailableReason>) -> Seq<Reason> {
    reasons.map_values(|reason: UnavailableReason| reason@)
}

/// What the states hold, in order.
pub open spec fn state_list(states: Seq<SolveState>) -> Seq<SolveView> {
    states.map_values(|state: SolveState| state@)
}

impl View for Resolver {
    type V = ResolverView;

    closed spec fn view(&self) -> ResolverView {
        ResolverView {
            transitive: self.transitive,
            universal: self.universal,
            reporting: self.reporting,
            installed: self.python_requirement.installed@,
            target: self.python_requirement.target@,
            table: self.table@,
            reasons: reason_list(self.reasons@),
            visited: self.visited@,
            current: match self.current {
                Some(state) => Some(state@),
                None => None,
            },
            waiting: state_list(self.waiting@),
            finished: self.finished@,
            listed: self.listed@,
            resolution: self.resolution@,
            phase: self.phase.parts(),
        }
    }
}

/// Whether the states fit a table of `n` packages, and unit propagation is due in each.
spec fn all_fit(states: Seq<SolveState>, n: nat) -> bool {
    forall|i: int| 0 <= i < states.len() ==> (#[trigger] states[i]).wf(n) && states[i]@.due()
}

/// States that fit a table fit a longer one.
proof fn lemma_all_fit(states: Seq<SolveState>, n: nat, m: nat)
    requires
        all_fit(states, n),
        n <= m,
    ensures
        all_fit(states, m),
{
    assert forall|i: int| 0 <= i < states.len() implies (#[trigger] states[i]).wf(m)
        && states[i]@.due() by {
        states[i].lemma_longer_table(n, m);
    }
}

/// Whether the state is solved: its solver was set up for the root, and its solution, of packages
/// with numbers below `n`, respects everything that the solver was told and holds nothing that is
/// not needed.
pub open spec fn is_solved_state(state: SolveView, n: nat) -> bool {
    &&& state.told.len() > 0
    &&& state.told[0] == (Told::Root { package: 0, version: min_version_parts() })
    &&& respected(state.told, solution(state.told))
    &&& needed(state.told, solution(state.told))
    &&& all_recorded(state.told)
    &&& state.solved_within(n)
}

/// Whether each state is solved.
pub open spec fn all_solved(finished: Seq<SolveView>, n: nat) -> bool {
    forall|i: int| 0 <= i < finished.len() ==> is_solved_state(#[trigger] finished[i], n)
}

/// Whether every package of the resolution, with its version as it is written, is one of a solved
/// state.
pub open spec fn as_written(
    resolution: Seq<(PackageView, VersionParts)>,
    finished: Seq<SolveView>,
    table: Seq<PackageView>,
) -> bool {
    forall|i: int|
        0 <= i < resolution.len() ==> is_solved(#[trigger] resolution[i], finished, table)
}

/// Whether the package with its version, as it is written, is one of a solved state.
pub open spec fn is_solved(
    entry: (PackageView, VersionParts),
    finished: Seq<SolveView>,
    table: Seq<PackageView>,
) -> bool {
    exists|k: int|
        0 <= k < finished.len() && solved_forms(
            (#[trigger] finished[k]).told,
            table,
        ).contains(entry)
}

/// Packages that are added to the table later leave what is written as it is.
proof fn lemma_as_written_stays(
    resolution: Seq<(PackageView, VersionParts)>,
    finished: Seq<SolveView>,
    table: Seq<PackageView>,
    longer: Seq<PackageView>,
)
    requires
        all_solved(finished, table.len()),
        as_written(resolution, finished, table),
        table.is_prefix_of(longer),
    ensures
        as_written(resolution, finished, longer),
{
    assert forall|i: int| 0 <= i < resolution.len() implies is_solved(
        #[trigger] resolution[i],
        finished,
        longer,
    ) by {
        assert(is_solved(resolution[i], finished, table));
        let k = choose|k: int|
            0 <= k < finished.len() && solved_forms(
                (#[trigger] finished[k]).told,
                table,
            ).contains(resolution[i]);
        let packages = solution(finished[k].told);
        let forms = solved_forms(finished[k].told, table);
        let j = choose|j: int| 0 <= j < forms.len() && forms[j] == resolution[i];
        assert(packages[j].0 < table.len());
        assert(solved_forms(finished[k].told, longer)[j] == resolution[i]);
    }
}

/// One more solved state adds what it resolves, as it is written.
proof fn lemma_as_written_added(
    before: Seq<(PackageView, VersionParts)>,
    known: Set<(PackageView, VersionKey)>,
    items: Seq<(PubGrubPackage, Version)>,
    finished: Seq<SolveView>,
    state: SolveView,
    table: Seq<PackageView>,
)
    requires
        as_written(before, finished, table),
        forms(items) == solved_forms(state.told, table),
    ensures
        as_written(before + new_forms(known, items), finished.push(state), table),
{
    let after = before + new_forms(known, items);
    let more = finished.push(state);
    assert forall|i: int| 0 <= i < after.len() implies is_solved(
        #[trigger] after[i],
        more,
        table,
    ) by {
        if i < before.len() {
            assert(is_solved(before[i], finished, table));
            let k = choose|k: int|
                0 <= k < finished.len() && solved_forms(
                    (#[trigger] finished[k]).told,
                    table,
                ).contains(before[i]);
            assert(more[k] == finished[k]);
        } else {
            lemma_new_forms(known, items, i - before.len());
            let n = finished.len() as int;
            assert(more[n] == state);
        }
    }
}

/// Whether every dependency of the resolution, as it is written, is one of a solved state.
pub open spec fn edges_as_written(
    edges: Seq<(NamesKey, VersionsForm)>,
    finished: Seq<SolveView>,
    table: Seq<PackageView>,
) -> bool {
    forall|i: int| 0 <= i < edges.len() ==> is_solved_edge(#[trigger] edges[i], finished, table)
}

/// Whether the dependency, as it is written, is one of a solved state.
pub open spec fn is_solved_edge(
    edge: (NamesKey, VersionsForm),
    finished: Seq<SolveView>,
    table: Seq<PackageView>,
) -> bool {
    exists|k: int|
        0 <= k < finished.len() && has_edge_written((#[trigger] finished[k]).told, table, edge)
}

/// Packages that are added to the table later leave the dependencies as they are written.
proof fn lemma_edges_stay(
    edges: Seq<(NamesKey, VersionsForm)>,
    finished: Seq<SolveView>,
    table: Seq<PackageView>,
    longer: Seq<PackageView>,
)
    requires
        all_solved(finished, table.len()),
        edges_as_written(edges, finished, table),
        table.is_prefix_of(longer),
    ensures
        edges_as_written(edges, finished, longer),
{
    assert forall|i: int| 0 <= i < edges.len() implies is_solved_edge(
        #[trigger] edges[i],
        finished,
        longer,
    ) by {
        assert(is_solved_edge(edges[i], finished, table));
        let n = choose|n: int|
            0 <= n < finished.len() && has_edge_written(
                (#[trigger] finished[n]).told,
                table,
                edges[i],
            );
        let told = finished[n].told;
        let (a, k, b) = choose|a: int, k: int, b: int| #[trigger]
            edge_written_at(told, table, a, k, b, edges[i]);
        assert(is_solved_state(finished[n], table.len()));
        assert(solution(told)[a].0 < table.len());
        assert(solution(told)[b].0 < table.len());
        assert(edge_written_at(told, longer, a, k, b, edges[i]));
        assert(has_edge_written(finished[n].told, longer, edges[i]));
    }
}

/// One more solved state adds its dependencies, as they are written.
proof fn lemma_edges_added(
    before: Seq<(NamesKey, VersionsForm)>,
    known: Set<(NamesKey, VersionsKey)>,
    items: Seq<(ResolutionDependencyNames, ResolutionDependencyVersions)>,
    finished: Seq<SolveView>,
    state: SolveView,
    table: Seq<PackageView>,
)
    requires
        edges_as_written(before, finished, table),
        forall|i: int|
            0 <= i < items.len() ==> has_edge_written(
                state.told,
                table,
                (#[trigger] items[i]).form(),
            ),
    ensures
        edges_as_written(before + new_forms(known, items), finished.push(state), table),
{
    let after = before + new_forms(known, items);
    let more = finished.push(state);
    assert forall|i: int| 0 <= i < after.len() implies is_solved_edge(
        #[trigger] after[i],
        more,
        table,
    ) by {
        if i < before.len() {
            assert(is_solved_edge(before[i], finished, table));
            let k = choose|k: int|
                0 <= k < finished.len() && has_edge_written(
                    (#[trigger] finished[k]).told,
                    table,
                    before[i],
                );
            assert(more[k] == finished[k]);
        } else {
            lemma_new_forms(known, items, i - before.len());
            let j = choose|j: int|
                0 <= j < forms(items).len() && forms(items)[j] == after[i];
            assert(items[j].form() == after[i]);
            let n = finished.len() as int;
            assert(more[n] == state);
        }
    }
}

/// What is new among the items is among the items.
proof fn lemma_new_forms<T: Keyed>(known: Set<T::Key>, items: Seq<T>, i: int)
    requires
        0 <= i < new_forms(known, items).len(),
    ensures
        forms(items).contains(new_forms(known, items)[i]),
    decreases items.len(),
{
    let before = items.drop_last();
    let n = items.len() - 1;
    if i < new_forms(known, before).len() {
        lemma_new_forms(known, before, i);
        let j = choose|j: int|
            0 <= j < forms(before).len() && forms(before)[j] == new_forms(known, before)[i];
        assert(forms(items)[j] == forms(before)[j]);
    } else {
        assert(forms(items)[n] == items.last().form());
    }
}

/// Whether the resolution holds the packages and dependencies of the solved states, and no others.
pub open spec fn joined(
    resolution: ResolutionView,
    finished: Seq<SolveView>,
    table: Seq<PackageView>,
) -> bool {
    &&& forall|entry: (PackageView, VersionKey)| #[trigger]
        resolution.packages.contains(entry) <==> exists|i: int|
            0 <= i < finished.len() && (#[trigger] finished[i]).resolution(
                table,
            ).packages.contains(entry)
    &&& forall|edge: (NamesKey, VersionsKey)| #[trigger]
        resolution.dependencies.contains(edge) <==> exists|i: int|
            0 <= i < finished.len() && (#[trigger] finished[i]).resolution(
                table,
            ).dependencies.contains(edge)
}

/// Whether the pins are those of the solved states, and no others: each package at a version is
/// pinned to the distribution that one of the states pins it to.
pub open spec fn pins_joined(
    pins: Map<(Seq<char>, VersionKey), ResolvedDist>,
    finished: Seq<SolveView>,
) -> bool {
    &&& forall|i: int, key: (Seq<char>, VersionKey)|
        0 <= i < finished.len() && #[trigger] finished[i].pins.dom().contains(key)
            ==> pins.dom().contains(key)
    &&& forall|key: (Seq<char>, VersionKey)| #[trigger]
        pins.dom().contains(key) ==> exists|i: int|
            0 <= i < finished.len() && (#[trigger] finished[i]).pins.dom().contains(key)
                && finished[i].pins[key] == pins[key]
}

/// One more solved state adds its pins.
proof fn lemma_pins_added(
    pins: Map<(Seq<char>, VersionKey), ResolvedDist>,
    finished: Seq<SolveView>,
    state: SolveView,
)
    requires
        pins_joined(pins, finished),
    ensures
        pins_joined(pins.union_prefer_right(state.pins), finished.push(state)),
{
    let all = pins.union_prefer_right(state.pins);
    let more = finished.push(state);
    let n = finished.len() as int;
    assert(more[n] == state);
    assert forall|i: int, key: (Seq<char>, VersionKey)|
        0 <= i < more.len() && #[trigger] more[i].pins.dom().contains(
            key,
        ) implies all.dom().contains(key) by {
        if i < n {
            assert(finished[i].pins.dom().contains(key));
        }
    }
    assert forall|key: (Seq<char>, VersionKey)| #[trigger]
        all.dom().contains(key) implies exists|i: int|
        0 <= i < more.len() && (#[trigger] more[i]).pins.dom().contains(key)
            && more[i].pins[key] == all[key] by {
        if state.pins.dom().contains(key) {
            assert(more[n].pins.dom().contains(key));
        } else {
            assert(pins.dom().contains(key));
            let i = choose|i: int|
                0 <= i < finished.len() && (#[trigger] finished[i]).pins.dom().contains(key)
                    && finished[i].pins[key] == pins[key];
            assert(more[i] == finished[i]);
        }
    }
}

/// What a state resolves does not depend on packages that were added to the table later.
proof fn lemma_resolution_stays(
    state: SolveView,
    table: Seq<PackageView>,
    longer: Seq<PackageView>,
)
    requires
        state.solved_within(table.len()),
        table.is_prefix_of(longer),
    ensures
        state.resolution(longer) == state.resolution(table),
{
    let packages = solution(state.told);
    assert(solved_packages(state.told, longer) =~= solved_packages(state.told, table)) by {
        assert forall|i: int| 0 <= i < packages.len() implies #[trigger] solved_packages(
            state.told,
            longer,
        )[i] == solved_packages(state.told, table)[i] by {
            assert(packages[i].0 < table.len());
        }
    }
    assert forall|edge: (NamesKey, VersionsKey)| has_edge(state.told, longer, edge) == has_edge(
        state.told,
        table,
        edge,
    ) by {
        assert forall|i: int, k: int, j: int|
            #![trigger edge_at(state.told, table, i, k, j, edge)]
            #![trigger edge_at(state.told, longer, i, k, j, edge)]
            edge_at(state.told, longer, i, k, j, edge) == edge_at(
                state.told,
                table,
                i,
                k,
                j,
                edge,
            ) by {
            if 0 <= i < packages.len() && 0 <= j < packages.len() {
                assert(packages[i].0 < table.len());
                assert(packages[j].0 < table.len());
            }
        }
    }
    assert(state.resolution(longer).dependencies =~= state.resolution(table).dependencies);
}

/// What was resolved does not depend on packages that were added to the table later.
proof fn lemma_solved_stays(
    resolution: ResolutionView,
    finished: Seq<SolveView>,
    table: Seq<PackageView>,
    longer: Seq<PackageView>,
)
    requires
        all_solved(finished, table.len()),
        joined(resolution, finished, table),
        table.is_prefix_of(longer),
    ensures
        all_solved(finished, longer.len()),
        joined(resolution, finished, longer),
{
    assert forall|i: int| 0 <= i < finished.len() implies (#[trigger] finished[i]).resolution(
        longer,
    ) == finished[i].resolution(table) && finished[i].solved_within(longer.len()) by {
        lemma_resolution_stays(finished[i], table, longer);
        let packages = solution(finished[i].told);
        assert forall|j: int| 0 <= j < packages.len() implies (#[trigger] packages[j]).0
            < longer.len() by {
            assert(packages[j].0 < table.len());
        }
    }
    assert forall|entry: (PackageView, VersionKey)| #[trigger]
        resolution.packages.contains(entry) <==> exists|i: int|
            0 <= i < finished.len() && (#[trigger] finished[i]).resolution(
                longer,
            ).packages.contains(entry) by {
        if resolution.packages.contains(entry) {
            let i = choose|i: int|
                0 <= i < finished.len() && (#[trigger] finished[i]).resolution(
                    table,
                ).packages.contains(entry);
            assert(finished[i].resolution(longer).packages.contains(entry));
        }
    }
    assert forall|edge: (NamesKey, VersionsKey)| #[trigger]
        resolution.dependencies.contains(edge) <==> exists|i: int|
            0 <= i < finished.len() && (#[trigger] finished[i]).resolution(
                longer,
            ).dependencies.contains(edge) by {
        if resolution.dependencies.contains(edge) {
            let i = choose|i: int|
                0 <= i < finished.len() && (#[trigger] finished[i]).resolution(
                    table,
                ).dependencies.contains(edge);
            assert(finished[i].resolution(longer).dependencies.contains(edge));
        }
    }
}

/// One more solved state adds what it resolves.
proof fn lemma_solved_added(
    resolution: ResolutionView,
    finished: Seq<SolveView>,
    state: SolveView,
    table: Seq<PackageView>,
)
    requires
        all_solved(finished, table.len()),
        joined(resolution, finished, table),
        is_solved_state(state, table.len()),
    ensures
        all_solved(finished.push(state), table.len()),
        joined(resolution.union(state.resolution(table)), finished.push(state), table),
{
    let more = finished.push(state);
    let all = resolution.union(state.resolution(table));
    let n = finished.len() as int;
    assert(more[n] == state);
    assert forall|entry: (PackageView, VersionKey)| #[trigger]
        all.packages.contains(entry) <==> exists|i: int|
            0 <= i < more.len() && (#[trigger] more[i]).resolution(table).packages.contains(
                entry,
            ) by {
        if resolution.packages.contains(entry) {
            let i = choose|i: int|
                0 <= i < finished.len() && (#[trigger] finished[i]).resolution(
                    table,
                ).packages.contains(entry);
            assert(more[i].resolution(table).packages.contains(entry));
        }
        if state.resolution(table).packages.contains(entry) {
            assert(more[n].resolution(table).packages.contains(entry));
        }
        if exists|i: int|
            0 <= i < more.len() && (#[trigger] more[i]).resolution(table).packages.contains(
                entry,
            ) {
            let i = choose|i: int|
                0 <= i < more.len() && (#[trigger] more[i]).resolution(table).packages.contains(
                    entry,
                );
            if i < n {
                assert(finished[i].resolution(table).packages.contains(entry));
            }
        }
    }
    assert forall|edge: (NamesKey, VersionsKey)| #[trigger]
        all.dependencies.contains(edge) <==> exists|i: int|
            0 <= i < more.len() && (#[trigger] more[i]).resolution(table).dependencies.contains(
                edge,
            ) by {
        if resolution.dependencies.contains(edge) {
            let i = choose|i: int|
                0 <= i < finished.len() && (#[trigger] finished[i]).resolution(
                    table,
                ).dependencies.contains(edge);
            assert(more[i].resolution(table).dependencies.contains(edge));
        }
        if state.resolution(table).dependencies.contains(edge) {
            assert(more[n].resolution(table).dependencies.contains(edge));
        }
        if exists|i: int|
            0 <= i < more.len() && (#[trigger] more[i]).resolution(table).dependencies.contains(
                edge,
            ) {
            let i = choose|i: int|
                0 <= i < more.len() && (#[trigger] more[i]).resolution(
                    table,
                ).dependencies.contains(edge);
            if i < n {
                assert(finished[i].resolution(table).dependencies.contains(edge));
            }
        }
    }
}

/// Whether no package is there in two versions.
pub open spec fn one_version_each(packages: Set<(PackageView, VersionKey)>) -> bool {
    forall|package: PackageView, one: VersionKey, other: VersionKey|
        #![trigger packages.contains((package, one)), packages.contains((package, other))]
        packages.contains((package, one)) && packages.contains((package, other)) ==> one == other
}

/// Whether one of the dependencies is on the package.
fn is_self_dependency(dependencies: &Vec<Dependency>, package: &PubGrubPackage) -> (answer: bool)
    ensures
        answer == depends_on(dependency_list(dependencies@), package@),
{
    let ghost list = dependency_list(dependencies@);
    for i in 0..dependencies.len()
        invariant
            list == dependency_list(dependencies@),
            forall|j: int| 0 <= j < i ==> (#[trigger] list[j]).package != package@,
    {
        assert(list[i as int] == dependencies@[i as int]@);
        if dependencies[i].package.same(package) {
            return true;
        }
    }
    false
}

/// The dependencies, or why there are none.
spec fn found(dependencies: Dependencies) -> DependenciesView {
    match dependencies {
        Dependencies::Unavailable(reason) => DependenciesView::Unavailable(reason@),
        Dependencies::Available(list) => DependenciesView::Available(dependency_list(list@)),
    }
}

impl Resolver {
    /// Whether all but the state at hand is well formed.
    spec fn base(&self) -> bool {
        &&& self.python_requirement.wf()
        &&& self.table.wf()
        &&& rooted(self.table@)
        &&& self.visited.wf()
        &&& self.resolution.wf()
        &&& all_fit(self.waiting@, self.table@.len())
        &&& all_solved(self.finished@, self.table@.len())
        &&& joined(self.resolution@, self.finished@, self.table@)
        &&& pins_joined(self.resolution@.pins, self.finished@)
        &&& as_written(
            forms(self.resolution.packages.in_order()),
            self.finished@,
            self.table@,
        )
        &&& edges_as_written(
            forms(self.resolution.dependencies.in_order()),
            self.finished@,
            self.table@,
        )
        &&& !self.universal ==> {
            &&& self.waiting@.len() <= 1
            &&& self.finished@.len() <= 1
            &&& self.waiting@.len() == 1 ==> self.finished@.len() == 0
            &&& self.finished@.len() == 0 ==> self.resolution@.packages.is_empty()
            &&& one_version_each(self.resolution@.packages)
        }
    }

    /// Whether there can be a state at hand: for a single environment, there is only one state,
    /// and nothing is resolved before it.
    spec fn busy(&self) -> bool {
        !self.universal ==> self.waiting@.len() == 0 && self.finished@.len() == 0
    }

    /// Whether every state fits the packages, and what is waited for fits the state at hand.
    spec fn fits(&self) -> bool {
        &&& self.base()
        &&& self.current matches Some(state) ==> state.wf(self.table@.len()) && self.busy()
        &&& self@.in_phase()
    }

    /// Whether the resolver is well formed: every state fits the packages, the root is the first
    /// package and no other is a root, what is waited for fits the state at hand, for a single
    /// environment there is at most one state, and everything that was done rests on what was
    /// found.
    pub closed spec fn wf(&self) -> bool {
        self.fits() && self@.sound()
    }

    /// A resolver for the requirements of a project.
    pub fn new(
        project: Option<PackageName>,
        dependency_mode: DependencyMode,
        universal: bool,
        python_requirement: PythonRequirement,
    ) -> (resolver: Resolver)
        requires
            python_requirement.wf(),
        ensures
            resolver.wf(),
            resolver@ == ResolverView::start(
                PubGrubPackage::Root(project)@,
                dependency_mode,
                universal,
                python_requirement.installed@,
                python_requirement.target@,
            ),
    {
        let mut waiting: Vec<SolveState> = Vec::new();
        waiting.push(SolveState::new());
        let transitive = match dependency_mode {
            DependencyMode::Transitive => true,
            DependencyMode::Direct => false,
        };
        let resolver = Resolver {
            transitive,
            universal,
            reporting: false,
            python_requirement,
            table: PackageTable::new(PubGrubPackage::Root(project)),
            reasons: Vec::new(),
            visited: KeyedSet::new(),
            current: None,
            waiting,
            finished: Ghost(Seq::empty()),
            listed: Ghost(Seq::empty()),
            resolution: Resolution::new(),
            phase: Phase::Ready,
        };
        proof {
            assert(state_list(resolver.waiting@) =~= seq![initial_view()]);
            assert(reason_list(resolver.reasons@) =~= Seq::empty());
            lemma_initial(resolver@);
        }
        resolver
    }

    /// Report progress from now on.
    pub fn with_reporter(self) -> (resolver: Resolver)
        requires
            self.wf(),
        ensures
            resolver.wf(),
            resolver@ == self@.reports(),
    {
        proof {
            lemma_reporting(self@);
        }
        Resolver { reporting: true, ..self }
    }

    /// Ask a question.
    fn ask(&mut self, phase: Phase, effects: Vec<Effect>, query: Query) -> (step: Step)
        requires
            old(self).base(),
            old(self).current matches Some(state) ==> state.wf(old(self).table@.len())
                && old(self).busy(),
            (ResolverView { phase: phase.parts(), ..old(self)@ }).in_phase(),
        ensures
            final(self).fits(),
            (final(self)@, step@) == old(self)@.ask(
                phase.parts(),
                effect_views(effects@),
                query@,
            ),
    {
        self.phase = phase;
        Step { effects, outcome: Ok(query) }
    }

    /// Fail.
    fn fail(&mut self, effects: Vec<Effect>, error: ResolveError) -> (step: Step)
        requires
            old(self).base(),
        ensures
            final(self).fits(),
            (final(self)@, step@) == old(self)@.fail(effect_views(effects@), error@),
    {
        self.phase = Phase::Failed;
        self.current = None;
        Step { effects, outcome: Err(error) }
    }

    /// Note a reason. Returns its number.
    fn note_reason(&mut self, reason: UnavailableReason) -> (number: usize)
        requires
            old(self).base(),
        ensures
            final(self).base(),
            final(self).current == old(self).current,
            old(self).busy() ==> final(self).busy(),
            number == old(self)@.reasons.len(),
            final(self)@ == (ResolverView {
                reasons: old(self)@.reasons.push(reason@),
                ..old(self)@
            }),
    {
        let ghost before = self@.reasons;
        let number: usize = self.reasons.len();
        self.reasons.push(reason);
        assert(reason_list(self.reasons@) =~= before.push(reason@));
        number
    }

    /// Add a state to those that wait.
    fn push_waiting(&mut self, state: SolveState)
        requires
            old(self).base(),
            state.wf(old(self).table@.len()),
            state@.due(),
            old(self).busy(),
        ensures
            final(self).base(),
            final(self).current == old(self).current,
            final(self).table == old(self).table,
            old(self).universal ==> final(self).busy(),
            final(self)@ == (ResolverView {
                waiting: old(self)@.waiting.push(state@),
                ..old(self)@
            }),
    {
        let ghost before = self.waiting@;
        self.waiting.push(state);
        assert(state_list(self.waiting@) =~= state_list(before).push(state@));
    }

    /// Add the package that is next at a version, with its dependencies.
    #[verifier::spinoff_prover]
    fn settle(
        &mut self,
        state: SolveState,
        version: &Version,
        range: &Range,
        effects: Vec<Effect>,
        dependencies: Dependencies,
    ) -> (step: Step)
        requires
            old(self).base(),
            old(self).current is None,
            old(self).busy(),
            state.wf(old(self).table@.len()),
            state@.deciding(range@),
            plain(version@),
            range.has(version@.key()),
            dependencies matches Dependencies::Available(list) ==> all_named(
                dependency_list(list@),
            ),
        ensures
            final(self).fits(),
            (final(self)@, step@) == old(self)@.with(state@).settle(
                version@,
                effect_views(effects@),
                found(dependencies),
            ),
    {
        proof {
            state.lemma_wf(self.table@.len());
        }
        let list = match dependencies {
            Dependencies::Unavailable(reason) => {
                let mut state = state;
                let number: usize = self.note_reason(UnavailableReason::Version(reason));
                state.unavailable_version(version, range, number, Ghost(self.table@.len()));
                self.push_waiting(state);
                return self.ask(Phase::Ready, effects, Query::Proceed);
            },
            Dependencies::Available(list) => list,
        };
        let package = self.table.get(state.next());
        let ghost view = state@;
        let ghost named = dependency_list(list@);
        let ghost forks = forked(named, self.universal);
        if is_self_dependency(&list, &package) {
            let error = ResolveError::SelfDependency { package, version: version.clone() };
            return self.fail(effects, error);
        }
        proof {
            self.listed@ = self.listed@.push(
                Listing { package: package@, version: version@, dependencies: named },
            );
        }
        let ghost start = self@;
        let mut rest = get_dependencies_forking(Dependencies::Available(list), self.universal);
        let mut state = Some(state);
        let mut k: Ghost<int> = Ghost(0);
        proof {
            assert(forks.take(0) =~= Seq::empty());
            assert(self@.waiting =~= start.waiting + fork_states(
                view,
                version@,
                start.table,
                forks.take(0),
            ));
        }
        while rest.len() > 0
            invariant
                self.base(),
                self.current is None,
                self.universal == start.universal,
                self.universal || k@ == 0 ==> self.busy(),
                start.table.is_prefix_of(self.table@),
                view.next < start.table.len(),
                package@ == start.table[view.next as int],
                view.deciding(range@),
                plain(version@),
                range.has(version@.key()),
                forks == forked(named, start.universal),
                all_named(named),
                !depends_on(named, package@),
                0 <= k@ <= forks.len(),
                rest@.len() == forks.len() - k@,
                forall|i: int|
                    0 <= i < rest@.len() ==> ((#[trigger] rest@[i]) matches Dependencies::Available(
                        fork,
                    ) && dependency_list(fork@) == forks[k@ + i]),
                rest@.len() > 0 ==> state is Some && (state->0)@ == view && (state->0).wf(
                    self.table@.len(),
                ),
                self@ == (ResolverView {
                    table: fork_table(start.table, forks.take(k@)),
                    waiting: start.waiting + fork_states(
                        view,
                        version@,
                        start.table,
                        forks.take(k@),
                    ),
                    ..start
                }),
            decreases rest@.len(),
        {
            let ghost before = self@;
            let ghost waiting = self.waiting@;
            assert(rest@[0] matches Dependencies::Available(fork) && dependency_list(fork@)
                == forks[k@ + 0]);
            let ghost remaining = rest@;
            let fork = match rest.remove(0) {
                Dependencies::Available(fork) => fork,
                Dependencies::Unavailable(_) => Vec::new(),
            };
            let ghost members = dependency_list(fork@);
            let mut next = state.unwrap();
            state = None;
            proof {
                lemma_fork_members(named, start.universal, members, k@);
                lemma_with_dependencies(self.table@, members);
            }
            let numbers = number_dependencies(&mut self.table, &fork);
            proof {
                lemma_all_fit(waiting, before.table.len(), self.table@.len());
                lemma_solved_stays(
                    before.resolution,
                    before.finished,
                    before.table,
                    self.table@,
                );
                lemma_as_written_stays(
                    forms(self.resolution.packages.in_order()),
                    before.finished,
                    before.table,
                    self.table@,
                );
                lemma_edges_stay(
                    forms(self.resolution.dependencies.in_order()),
                    before.finished,
                    before.table,
                    self.table@,
                );
                next.lemma_longer_table(before.table.len(), self.table@.len());
                assert(forks.take(k@ + 1).drop_last() =~= forks.take(k@));
                assert(package@ == self.table@[view.next as int]);
                assert forall|i: int| 0 <= i < numbers@.len() implies (
                #[trigger] numbers@[i]).0 != view.next && numbers@[i].0 < self.table@.len() by {
                    assert(members[i] == fork@[i]@);
                    assert(self.table@[numbers@[i].0 as int] == members[i].package);
                    assert(!depends_on(members, package@));
                }
            }
            if rest.len() > 0 {
                state = Some(next.duplicate(Ghost(self.table@.len())));
            }
            next.add_dependencies(version, range, &numbers, Ghost(self.table@.len()));
            self.push_waiting(next);
            proof {
                let done = forks.take(k@ + 1);
                assert(done.last() == members);
                assert(self@.waiting =~= start.waiting + fork_states(
                    view,
                    version@,
                    start.table,
                    done,
                ));
                assert forall|i: int| 0 <= i < rest@.len() implies ((#[trigger] rest@[i]) matches
                    Dependencies::Available(fork) && dependency_list(fork@) == forks[k@ + 1
                    + i]) by {
                    assert(rest@[i] == remaining[i + 1]);
                }
                k@ = k@ + 1;
            }
        }
        assert(forks.take(k@) =~= forks);
        self.ask(Phase::Ready, effects, Query::Proceed)
    }
}

impl Resolver {
    /// Visit the packages that are depended on, note their priorities, and settle the dependencies.
    #[verifier::spinoff_prover]
    fn expand(
        &mut self,
        state: SolveState,
        version: &Version,
        range: &Range,
        entries: Vec<Expanded>,
    ) -> (step: Step)
        requires
            old(self).base(),
            old(self).current is None,
            old(self).busy(),
            state.wf(old(self).table@.len()),
            state@.deciding(range@),
            plain(version@),
            range.has(version@.key()),
            all_expanded(expanded_list(entries@)),
        ensures
            final(self).fits(),
            (final(self)@, step@) == old(self)@.with(state@).expand(
                version@,
                expanded_list(entries@),
            ),
    {
        proof {
            state.lemma_wf(self.table@.len());
        }
        let ghost start = self@;
        let ghost view = state@;
        let ghost list = expanded_list(entries@);
        let ghost named = expanded_dependencies(list);
        let package = self.table.get(state.next());
        let (effects, error) = visit_packages(&entries);
        if let Some(error) = error {
            return self.fail(effects, error);
        }
        let mut state = state;
        let base = take_dependencies(&entries);
        proof {
            assert forall|i: int| 0 <= i < named.len() implies (
            #[trigger] named[i]).package.name() is Some by {
                assert(list[i].wf());
            }
            lemma_with_dependencies(self.table@, named);
        }
        let ghost waiting = self.waiting@;
        let numbers = number_dependencies(&mut self.table, &base);
        proof {
            lemma_all_fit(waiting, start.table.len(), self.table@.len());
            lemma_solved_stays(start.resolution, start.finished, start.table, self.table@);
            lemma_as_written_stays(
                forms(self.resolution.packages.in_order()),
                start.finished,
                start.table,
                self.table@,
            );
            lemma_edges_stay(
                forms(self.resolution.dependencies.in_order()),
                start.finished,
                start.table,
                self.table@,
            );
            state.lemma_longer_table(start.table.len(), self.table@.len());
            assert(view.priorities =~= view.priorities + dependency_views(numbers@).take(0));
        }
        let ghost n = self.table@.len();
        for i in 0..numbers.len()
            invariant
                state.wf(n),
                forall|j: int| 0 <= j < numbers@.len() ==> (#[trigger] numbers@[j]).0 < n,
                state@ == (SolveView {
                    priorities: view.priorities + dependency_views(numbers@).take(i as int),
                    ..view
                }),
        {
            let ghost so_far = state@.priorities;
            assert(numbers@[i as int].0 < n);
            state.note_priority(numbers[i].0, &numbers[i].1, Ghost(n));
            assert(state@.priorities =~= view.priorities + dependency_views(numbers@).take(
                i + 1,
            ));
        }
        assert(dependency_views(numbers@).take(numbers@.len() as int) =~= dependency_views(
            numbers@,
        ));
        let dependencies = with_unmarked(base, &package, version);
        proof {
            assert(package@ == self.table@[view.next as int]);
            let all = dependency_list(dependencies@);
            assert forall|i: int| 0 <= i < all.len() implies (
            #[trigger] all[i]).package.name() is Some by {
                if i < named.len() {
                    assert(all[i] == named[i]);
                } else {
                    assert(all[i] == unmarked(package@, version@)[i - named.len()]);
                }
            }
        }
        self.settle(state, version, range, effects, Dependencies::Available(dependencies))
    }

    /// Find the dependencies of the package that is next at a version.
    #[verifier::spinoff_prover]
    fn find(&mut self, state: SolveState, version: Version, range: Range, effects: Vec<Effect>) -> (step:
        Step)
        requires
            old(self).base(),
            old(self).current is None,
            old(self).busy(),
            state.wf(old(self).table@.len()),
            state@.deciding(range@),
            plain(version@),
            range.has(version@.key()),
        ensures
            final(self).fits(),
            (final(self)@, step@) == old(self)@.with(state@).find(
                version@,
                range@,
                effect_views(effects@),
            ),
    {
        proof {
            state.lemma_wf(self.table@.len());
        }
        let package = self.table.get(state.next());
        match get_dependencies(&package, &version, self.transitive) {
            Finding::Known(dependencies) => {
                proof {
                    let list = dependency_list(dependencies@);
                    assert(all_named(list));
                }
                self.settle(state, &version, &range, effects, Dependencies::Available(dependencies))
            },
            Finding::RootRequirements => {
                self.current = Some(state);
                let phase = Phase::RootRequirements { version, range };
                self.ask(phase, effects, Query::RootRequirements)
            },
            Finding::DirectMetadata => {
                let query = match &package {
                    PubGrubPackage::Package { name, url, .. } => Query::DirectMetadata {
                        name: name.clone(),
                        version: version.clone(),
                        url: copy_text(url),
                    },
                    _ => Query::Proceed,
                };
                self.current = Some(state);
                self.ask(Phase::DirectMetadata { version, range }, effects, query)
            },
            Finding::Availability => {
                let query = match &package {
                    PubGrubPackage::Package { name, .. } => Query::Availability {
                        name: name.clone(),
                    },
                    _ => Query::Proceed,
                };
                self.current = Some(state);
                self.ask(Phase::Availability { version, range }, effects, query)
            },
        }
    }

    /// Act on the version that was chosen for the package that is next.
    #[verifier::spinoff_prover]
    fn conclude(
        &mut self,
        state: SolveState,
        range: Range,
        effects: Vec<Effect>,
        version: Option<ResolverVersion>,
    ) -> (step: Step)
        requires
            old(self).base(),
            old(self).current is None,
            old(self).busy(),
            state.wf(old(self).table@.len()),
            state@.deciding(range@),
            match version {
                None => true,
                Some(ResolverVersion::Available(version)) => plain(version@) && range.has(
                    version@.key(),
                ),
                Some(ResolverVersion::Unavailable(version, reason)) => {
                    &&& plain(version@)
                    &&& range.has(version@.key())
                    &&& old(self)@.table[state@.next as int].name() is Some
                    &&& python_reason(reason) matches Some(specifiers) ==> rangeable(specifiers@)
                },
            },
        ensures
            final(self).fits(),
            (final(self)@, step@) == old(self)@.with(state@).conclude(
                range@,
                effect_views(effects@),
                decision(version),
            ),
    {
        proof {
            state.lemma_wf(self.table@.len());
        }
        let ghost n = self.table@.len();
        let package = self.table.get(state.next());
        let mut state = state;
        let mut effects = effects;
        let version = match version {
            None => {
                // Check if the decision was due to the package being unavailable.
                if let PubGrubPackage::Package { name, .. } = &package {
                    self.current = Some(state);
                    let query = Query::Unavailable { name: name.clone() };
                    return self.ask(Phase::Reason { range }, effects, query);
                }
                state.no_versions(&range, Ghost(n));
                self.current = Some(state);
                return self.ask(Phase::Ready, effects, Query::Proceed);
            },
            Some(ResolverVersion::Unavailable(version, reason)) => {
                // Incompatible requires-python versions are special in that we track them as
                // incompatible dependencies instead of marking the package version as unavailable
                // directly.
                match split_python_reason(reason) {
                    Ok(specifiers) => {
                        let python = match specifiers_range(&specifiers) {
                            Ok(python) => python,
                            Err(error) => {
                                return self.fail(effects, ResolveError::InvalidTildeEquals(error));
                            },
                        };
                        let ghost waiting = self.waiting@;
                        let ghost before = self.table@;
                        state.require_python(&version, &python, &range, &mut self.table);
                        proof {
                            lemma_all_fit(waiting, n, self.table@.len());
                            lemma_solved_stays(
                                self.resolution@,
                                self.finished@,
                                before,
                                self.table@,
                            );
                            lemma_as_written_stays(
                                forms(self.resolution.packages.in_order()),
                                self.finished@,
                                before,
                                self.table@,
                            );
                            lemma_edges_stay(
                                forms(self.resolution.dependencies.in_order()),
                                self.finished@,
                                before,
                                self.table@,
                            );
                            assert(rooted(with_pythons(before)));
                        }
                    },
                    Err(reason) => {
                        let number: usize = self.note_reason(UnavailableReason::Version(reason));
                        state.unavailable_version(&version, &range, number, Ghost(n));
                    },
                }
                self.current = Some(state);
                return self.ask(Phase::Ready, effects, Query::Proceed);
            },
            Some(ResolverVersion::Available(version)) => version,
        };
        let ghost view = state@;
        let batches = Effect::PrefetchBatches {
            package: package.clone(),
            version: version.clone(),
            range: range.clone(),
        };
        proof {
            lemma_effect_pushed(effects@, batches);
        }
        effects.push(batches);
        if self.reporting {
            if let Some(report) = on_progress(&package, &version) {
                proof {
                    lemma_effect_pushed(effects@, report);
                }
                effects.push(report);
            }
        }
        if state.note_version(&version, Ghost(n)) {
            // Retrieve that package dependencies.
            self.find(state, version, range, effects)
        } else {
            // The dependencies are already known to the solver, so that the decision can be added
            // directly.
            state.decide(&version, &range, Ghost(n));
            self.current = Some(state);
            self.ask(Phase::Ready, effects, Query::Proceed)
        }
    }
}

/// The effects that mark a package as unavailable, if there is a reason.
fn mark(name: &PackageName, reason: Option<UnavailablePackage>) -> (effects: Vec<Effect>)
    ensures
        effect_views(effects@) == marks(name@, reason),
{
    let mut effects: Vec<Effect> = Vec::new();
    if let Some(reason) = reason {
        effects.push(Effect::MarkUnavailable(name.clone(), reason));
    }
    assert(effect_views(effects@) =~= marks(name@, reason));
    effects
}

/// The name of a package that has one.
fn name_of(package: &PubGrubPackage) -> (name: PackageName)
    requires
        package@.name() is Some,
    ensures
        name@ == package@.name()->0,
{
    match package {
        PubGrubPackage::Package { name, .. } => name.clone(),
        PubGrubPackage::Extra { name, .. } => name.clone(),
        PubGrubPackage::Root(_) => String::new(),
        PubGrubPackage::Python(_) => String::new(),
    }
}

impl Resolver {
    /// Go on with the state at hand, or with the next that waits.
    #[verifier::spinoff_prover]
    fn resume(&mut self, current: Option<SolveState>) -> (step: Step)
        requires
            old(self).base(),
            old(self).current is None,
            current matches Some(state) ==> state.wf(old(self).table@.len()) && state@.due()
                && old(self).busy(),
        ensures
            final(self).fits(),
            (final(self)@, step@) == (ResolverView {
                current: match current {
                    Some(state) => Some(state@),
                    None => None,
                },
                ..old(self)@
            }).resume(),
    {
        let ghost start = self@;
        let ghost waiting = self.waiting@;
        let mut effects: Vec<Effect> = Vec::new();
        assert(effect_views(effects@) =~= Seq::empty());
        let mut state = match current {
            Some(state) => state,
            None => {
                match self.waiting.pop() {
                    Some(state) => {
                        proof {
                            assert(waiting[waiting.len() - 1].wf(self.table@.len()));
                            assert(state_list(self.waiting@) =~= start.waiting.drop_last());
                            assert forall|i: int| 0 <= i < self.waiting@.len() implies (
                            #[trigger] self.waiting@[i]).wf(self.table@.len())
                                && self.waiting@[i]@.due() by {
                                assert(self.waiting@[i] == waiting[i]);
                            }
                        }
                        state
                    },
                    None => {
                        return self.ask(Phase::Finished, effects, Query::Done);
                    },
                }
            },
        };
        // Run unit propagation.
        match state.propagate(Ghost(self.table@.len())) {
            Ok(_) => {},
            Err(error) => {
                return self.fail(effects, ResolveError::NoSolution(error));
            },
        }
        // Pre-visit all candidate packages, to allow metadata to be fetched in parallel. If the
        // dependency mode is direct, we only need to visit the root package.
        if self.transitive {
            let requests = state.pre_visit(&self.table);
            for i in 0..requests.len()
                invariant
                    effect_views(effects@) == sends(prefetched(requests@)).take(i as int),
            {
                let (name, range) = &requests[i];
                let effect = Effect::Send(Request::Prefetch(name.clone(), range.clone()));
                proof {
                    lemma_effect_pushed(effects@, effect);
                    assert(effect@ == sends(prefetched(requests@))[i as int]);
                }
                effects.push(effect);
                assert(effect_views(effects@) =~= sends(prefetched(requests@)).take(i + 1));
            }
            assert(effect_views(effects@) =~= sends(prefetched(requests@)));
        }
        self.current = Some(state);
        self.ask(Phase::Ranking, effects, Query::Rank)
    }

    /// Pick the package to decide on.
    #[verifier::spinoff_prover]
    fn rank(&mut self, state: SolveState, ranks: &Ranks) -> (step: Step)
        requires
            old(self).base(),
            old(self).current is None,
            old(self).busy(),
            state.wf(old(self).table@.len()),
            settled(state@.told),
        ensures
            final(self).fits(),
            (final(self)@, step@) == old(self)@.with(state@).rank(ranks.ranks@),
            pick_fits(old(self)@.with(state@), ranks.ranks@),
    {
        let ghost start = self@.with(state@);
        let ghost n = self.table@.len();
        let mut effects: Vec<Effect> = Vec::new();
        assert(effect_views(effects@) =~= Seq::empty());
        let mut state = state;
        let range = match state.pick(ranks, Ghost(n)) {
            Some(range) => range,
            None => {
                proof {
                    state.lemma_wf(n);
                }
                let ghost solved = state@;
                let ghost so_far = self.resolution@;
                let resolution = state.into_resolution(&self.table);
                let ghost before = self.resolution@.packages;
                let ghost texts = forms(self.resolution.packages.in_order());
                let ghost edges = forms(self.resolution.dependencies.in_order());
                self.resolution.union(resolution);
                proof {
                    lemma_needed_picked(start.state().told, ranks.ranks@);
                    lemma_as_written_added(
                        texts,
                        so_far.packages,
                        resolution.packages.in_order(),
                        self.finished@,
                        solved,
                        self.table@,
                    );
                    lemma_edges_added(
                        edges,
                        so_far.dependencies,
                        resolution.dependencies.in_order(),
                        self.finished@,
                        solved,
                        self.table@,
                    );
                    lemma_pins_added(so_far.pins, self.finished@, solved);
                    lemma_solved_added(so_far, self.finished@, solved, self.table@);
                    self.finished@ = self.finished@.push(solved);
                    if !self.universal {
                        assert(before =~= Set::empty());
                        assert(self.resolution@.packages =~= resolution@.packages);
                    }
                }
                return self.ask(Phase::Ready, effects, Query::Proceed);
            },
        };
        proof {
            state.lemma_wf(n);
        }
        let package = self.table.get(state.next());
        let tried = Effect::Tried(package.clone());
        proof {
            lemma_effect_pushed(effects@, tried);
            assert(effect_views(effects@.push(tried)) =~= seq![EffectView::Tried(package@)]);
        }
        effects.push(tried);
        match choose_version(&package, &range, &self.python_requirement) {
            Choice::Chosen(version) => {
                proof {
                    assert(package@ is Root <==> state@.next == 0);
                }
                self.conclude(state, range, effects, version)
            },
            Choice::Metadata { name, url } => {
                self.current = Some(state);
                self.ask(Phase::Metadata { range }, effects, Query::Metadata { name, url })
            },
            Choice::Versions { name } => {
                self.current = Some(state);
                self.ask(Phase::Versions { range }, effects, Query::Versions { name })
            },
        }
    }

    /// Choose a version by the metadata of the package.
    fn take_metadata(
        &mut self,
        state: SolveState,
        range: Range,
        response: Option<MetadataResponse<Metadata>>,
    ) -> (step: Step)
        requires
            old(self).base(),
            old(self).current is None,
            old(self).busy(),
            state.wf(old(self).table@.len()),
            state@.deciding(range@),
            old(self)@.table[state@.next as int].name() is Some,
            response matches Some(MetadataResponse::Found(metadata)) ==> metadata.answers(
                range@,
                old(self)@.target,
            ),
        ensures
            final(self).fits(),
            (final(self)@, step@) == old(self)@.with(state@).take_metadata(range@, response),
    {
        proof {
            state.lemma_wf(self.table@.len());
        }
        let package = self.table.get(state.next());
        let response = match response {
            Some(response) => response,
            None => {
                let effects: Vec<Effect> = Vec::new();
                assert(effect_views(effects@) =~= Seq::empty());
                return self.fail(effects, ResolveError::Unregistered);
            },
        };
        let target = &self.python_requirement.target;
        let (version, reason) = choose_from_metadata(response, &range, target);
        let effects = mark(&name_of(&package), reason);
        self.conclude(state, range, effects, version)
    }

    /// Ask for a candidate among the versions of the package.
    fn take_versions(
        &mut self,
        state: SolveState,
        range: Range,
        response: Option<VersionsResponse<()>>,
    ) -> (step: Step)
        requires
            old(self).base(),
            old(self).current is None,
            old(self).busy(),
            state.wf(old(self).table@.len()),
            state@.deciding(range@),
            old(self)@.table[state@.next as int].name() is Some,
        ensures
            final(self).fits(),
            (final(self)@, step@) == old(self)@.with(state@).take_versions(range@, response),
    {
        proof {
            state.lemma_wf(self.table@.len());
        }
        let package = self.table.get(state.next());
        let response = match response {
            Some(response) => response,
            None => {
                let effects: Vec<Effect> = Vec::new();
                assert(effect_views(effects@) =~= Seq::empty());
                return self.fail(effects, ResolveError::Unregistered);
            },
        };
        let name = name_of(&package);
        self.visited.insert(name.clone());
        let effects = mark(&name, unavailable_from_versions(&response));
        let query = Query::Select { name, range: range.clone() };
        self.current = Some(state);
        self.ask(Phase::Candidate { range }, effects, query)
    }

    /// Choose the version of the candidate.
    fn take_candidate(&mut self, state: SolveState, range: Range, candidate: Option<Candidate>) -> (step:
        Step)
        requires
            old(self).base(),
            old(self).current is None,
            old(self).busy(),
            state.wf(old(self).table@.len()),
            state@.deciding(range@),
            old(self)@.table[state@.next as int].name() is Some,
            candidate matches Some(candidate) ==> candidate.fits(range@),
        ensures
            final(self).fits(),
            (final(self)@, step@) == old(self)@.with(state@).take_candidate(range@, candidate),
    {
        proof {
            state.lemma_wf(self.table@.len());
        }
        let mut state = state;
        let package = self.table.get(state.next());
        let selected = choose_from_candidate(candidate, &package);
        if let Some(dist) = selected.pin {
            // We want to return a package pinned to a specific version; but we _also_ want to
            // store the exact file that we selected to satisfy that version.
            if let Some(ResolverVersion::Available(version)) = &selected.version {
                let name = name_of(&package);
                state.pin(&name, version, dist, Ghost(self.table@.len()));
            }
        }
        let mut effects: Vec<Effect> = Vec::new();
        assert(effect_views(effects@) =~= Seq::empty());
        // Emit a request to fetch the metadata for this version.
        if let Some((id, request)) = selected.request {
            let effect = Effect::FetchMetadata { id, request };
            proof {
                lemma_effect_pushed(effects@, effect);
                assert(effect_views(effects@.push(effect)) =~= seq![effect@]);
            }
            effects.push(effect);
        }
        self.conclude(state, range, effects, selected.version)
    }

    /// Rule out every version in the range.
    fn take_reason(&mut self, state: SolveState, range: Range, reason: Option<UnavailablePackage>) -> (step:
        Step)
        requires
            old(self).base(),
            old(self).current is None,
            old(self).busy(),
            state.wf(old(self).table@.len()),
            state@.deciding(range@),
        ensures
            final(self).fits(),
            (final(self)@, step@) == old(self)@.with(state@).take_reason(range@, reason),
    {
        let ghost n = self.table@.len();
        let effects: Vec<Effect> = Vec::new();
        assert(effect_views(effects@) =~= Seq::empty());
        let mut state = state;
        match reason {
            Some(reason) => {
                let number: usize = self.note_reason(UnavailableReason::Package(reason));
                state.unavailable_package(&range, number, Ghost(n));
            },
            None => {
                state.no_versions(&range, Ghost(n));
            },
        }
        self.current = Some(state);
        self.ask(Phase::Ready, effects, Query::Proceed)
    }

    /// Take the dependencies of the root.
    fn take_root_requirements(
        &mut self,
        state: SolveState,
        version: Version,
        range: Range,
        requirements: Result<Vec<Expanded>, String>,
    ) -> (step: Step)
        requires
            old(self).base(),
            old(self).current is None,
            old(self).busy(),
            state.wf(old(self).table@.len()),
            old(self)@.with(state@).adding(version@, range@),
            requirements matches Ok(entries) ==> all_expanded(expanded_list(entries@)),
        ensures
            final(self).fits(),
            (final(self)@, step@) == old(self)@.with(state@).take_root_requirements(
                version@,
                requirements,
            ),
    {
        match requirements {
            Ok(entries) => self.expand(state, &version, &range, entries),
            Err(text) => {
                let effects: Vec<Effect> = Vec::new();
                assert(effect_views(effects@) =~= Seq::empty());
                let reason = root_failure(&text);
                let dependencies = Dependencies::Unavailable(reason);
                self.settle(state, &version, &range, effects, dependencies)
            },
        }
    }

    /// The package has no dependencies that are wanted, once its metadata is there.
    fn take_direct_metadata(
        &mut self,
        state: SolveState,
        version: Version,
        range: Range,
        registered: bool,
    ) -> (step: Step)
        requires
            old(self).base(),
            old(self).current is None,
            old(self).busy(),
            state.wf(old(self).table@.len()),
            old(self)@.with(state@).adding(version@, range@),
        ensures
            final(self).fits(),
            (final(self)@, step@) == old(self)@.with(state@).take_direct_metadata(
                version@,
                registered,
            ),
    {
        let effects: Vec<Effect> = Vec::new();
        assert(effect_views(effects@) =~= Seq::empty());
        if registered {
            let none: Vec<Dependency> = Vec::new();
            assert(dependency_list(none@) =~= Seq::empty());
            self.settle(state, &version, &range, effects, Dependencies::Available(none))
        } else {
            self.fail(effects, ResolveError::Unregistered)
        }
    }

    /// Ask for the metadata of the package, unless it is unavailable and not installed.
    fn take_availability(
        &mut self,
        state: SolveState,
        version: Version,
        range: Range,
        unavailable: bool,
        installed: bool,
    ) -> (step: Step)
        requires
            old(self).base(),
            old(self).current is None,
            old(self).busy(),
            state.wf(old(self).table@.len()),
            old(self)@.with(state@).adding(version@, range@),
            old(self)@.with(state@).package() is Package,
        ensures
            final(self).fits(),
            (final(self)@, step@) == old(self)@.with(state@).take_availability(
                version@,
                range@,
                unavailable,
                installed,
            ),
    {
        let effects: Vec<Effect> = Vec::new();
        assert(effect_views(effects@) =~= Seq::empty());
        let package = self.table.get(state.next());
        let name = name_of(&package);
        match check_availability(&name, unavailable, installed) {
            Ok(_) => {},
            Err(error) => {
                return self.fail(effects, error);
            },
        }
        let url = match &package {
            PubGrubPackage::Package { url, .. } => copy_text(url),
            _ => None,
        };
        let query = Query::PackageMetadata { name, version: version.clone(), url };
        self.current = Some(state);
        self.ask(Phase::PackageMetadata { version, range }, effects, query)
    }

    /// Ask for the dependencies that the metadata stands for.
    fn take_package_metadata(
        &mut self,
        state: SolveState,
        version: Version,
        range: Range,
        response: Option<MetadataResponse<()>>,
    ) -> (step: Step)
        requires
            old(self).base(),
            old(self).current is None,
            old(self).busy(),
            state.wf(old(self).table@.len()),
            old(self)@.with(state@).adding(version@, range@),
            old(self)@.with(state@).package() is Package,
        ensures
            final(self).fits(),
            (final(self)@, step@) == old(self)@.with(state@).take_package_metadata(
                version@,
                range@,
                response,
            ),
    {
        let mut effects: Vec<Effect> = Vec::new();
        assert(effect_views(effects@) =~= Seq::empty());
        let response = match response {
            Some(response) => response,
            None => {
                return self.fail(effects, ResolveError::Unregistered);
            },
        };
        let package = self.table.get(state.next());
        let name = name_of(&package);
        match incomplete_from_metadata(response) {
            Some((incomplete, reason)) => {
                let effect = Effect::MarkIncomplete(name, version.clone(), incomplete);
                proof {
                    lemma_effect_pushed(effects@, effect);
                    assert(effect_views(effects@.push(effect)) =~= seq![effect@]);
                }
                effects.push(effect);
                let dependencies = Dependencies::Unavailable(reason);
                self.settle(state, &version, &range, effects, dependencies)
            },
            None => {
                let (extra, url) = match &package {
                    PubGrubPackage::Package { extra, url, .. } => (
                        copy_text(extra),
                        copy_text(url),
                    ),
                    _ => (None, None),
                };
                let query = Query::PackageRequirements {
                    name,
                    extra,
                    version: version.clone(),
                    url,
                };
                self.current = Some(state);
                self.ask(Phase::PackageRequirements { version, range }, effects, query)
            },
        }
    }

    /// Take the dependencies of the package.
    fn take_package_requirements(
        &mut self,
        state: SolveState,
        version: Version,
        range: Range,
        requirements: Result<Vec<Expanded>, String>,
    ) -> (step: Step)
        requires
            old(self).base(),
            old(self).current is None,
            old(self).busy(),
            state.wf(old(self).table@.len()),
            old(self)@.with(state@).adding(version@, range@),
            requirements matches Ok(entries) ==> all_expanded(expanded_list(entries@)),
        ensures
            final(self).fits(),
            (final(self)@, step@) == old(self)@.with(state@).take_package_requirements(
                version@,
                requirements,
            ),
    {
        match requirements {
            Ok(entries) => self.expand(state, &version, &range, entries),
            Err(text) => {
                let effects: Vec<Effect> = Vec::new();
                assert(effect_views(effects@) =~= Seq::empty());
                self.fail(effects, ResolveError::Requirements(text))
            },
        }
    }

    /// Whether the answer is one that the resolver waits for.
    pub fn accepts(&self, answer: &Answer) -> (accepted: bool)
        requires
            self.wf(),
        ensures
            accepted == self@.expects(*answer),
    {
        match (&self.phase, answer) {
            (Phase::Ready, Answer::Proceed) => true,
            (Phase::Ranking, Answer::Ranks(_)) => true,
            (
                Phase::Metadata { range },
                Answer::Metadata(Some(MetadataResponse::Found(metadata))),
            ) => { metadata.is_answering(range, &self.python_requirement.target) },
            (Phase::Metadata { .. }, Answer::Metadata(_)) => true,
            (Phase::Versions { .. }, Answer::Versions(_)) => true,
            (Phase::Candidate { range }, Answer::Candidate(Some(candidate))) => {
                candidate.is_fit(range)
            },
            (Phase::Candidate { .. }, Answer::Candidate(None)) => true,
            (Phase::Reason { .. }, Answer::Reason(_)) => true,
            (Phase::RootRequirements { .. }, Answer::RootRequirements(Ok(entries))) => {
                are_expanded(entries)
            },
            (Phase::RootRequirements { .. }, Answer::RootRequirements(Err(_))) => true,
            (Phase::DirectMetadata { .. }, Answer::DirectMetadata(_)) => true,
            (Phase::Availability { .. }, Answer::Availability { .. }) => true,
            (Phase::PackageMetadata { .. }, Answer::PackageMetadata(_)) => true,
            (Phase::PackageRequirements { .. }, Answer::PackageRequirements(Ok(entries))) => {
                are_expanded(entries)
            },
            (Phase::PackageRequirements { .. }, Answer::PackageRequirements(Err(_))) => true,
            _ => false,
        }
    }

    /// Take an answer on the version of the package that is next, or on what comes next.
    #[verifier::spinoff_prover]
    fn take_answer(&mut self, answer: Answer) -> (step: Step)
        requires
            old(self).fits(),
            old(self)@.expects(answer),
        ensures
            final(self).fits(),
            (final(self)@, step@) == old(self)@.advance(answer),
            answer matches Answer::Ranks(ranks) ==> pick_fits(old(self)@, ranks.ranks@),
    {
        let ghost start = self@;
        let phase = self.phase.duplicate();
        let current = self.current.take();
        assert(current is Some ==> self@.with((current->0)@) == start);
        match (phase, answer) {
            (Phase::Ready, _) => self.resume(current),
            (Phase::Ranking, Answer::Ranks(ranks)) => self.rank(current.unwrap(), &ranks),
            (Phase::Metadata { range }, Answer::Metadata(response)) => {
                self.take_metadata(current.unwrap(), range, response)
            },
            (Phase::Versions { range }, Answer::Versions(response)) => {
                self.take_versions(current.unwrap(), range, response)
            },
            (Phase::Candidate { range }, Answer::Candidate(candidate)) => {
                self.take_candidate(current.unwrap(), range, candidate)
            },
            (Phase::Reason { range }, Answer::Reason(reason)) => {
                self.take_reason(current.unwrap(), range, reason)
            },
            (phase, answer) => self.take_found(current.unwrap(), phase, answer),
        }
    }

    /// Take an answer on the dependencies of the package that is next.
    #[verifier::spinoff_prover]
    fn take_found(&mut self, state: SolveState, phase: Phase, answer: Answer) -> (step: Step)
        requires
            old(self).base(),
            old(self).current is None,
            old(self).busy(),
            state.wf(old(self).table@.len()),
            phase.parts() == old(self)@.phase,
            old(self)@.with(state@).in_phase(),
            old(self)@.expects(answer),
            answer is RootRequirements || answer is DirectMetadata || answer is Availability
                || answer is PackageMetadata || answer is PackageRequirements,
        ensures
            final(self).fits(),
            (final(self)@, step@) == old(self)@.with(state@).advance(answer),
    {
        match (phase, answer) {
            (
                Phase::RootRequirements { version, range },
                Answer::RootRequirements(requirements),
            ) => { self.take_root_requirements(state, version, range, requirements) },
            (Phase::DirectMetadata { version, range }, Answer::DirectMetadata(registered)) => {
                self.take_direct_metadata(state, version, range, registered)
            },
            (
                Phase::Availability { version, range },
                Answer::Availability { unavailable, installed },
            ) => { self.take_availability(state, version, range, unavailable, installed) },
            (Phase::PackageMetadata { version, range }, Answer::PackageMetadata(response)) => {
                self.take_package_metadata(state, version, range, response)
            },
            (
                Phase::PackageRequirements { version, range },
                Answer::PackageRequirements(requirements),
            ) => { self.take_package_requirements(state, version, range, requirements) },
            _ => {
                let effects: Vec<Effect> = Vec::new();
                self.fail(effects, ResolveError::ChannelClosed)
            },
        }
    }

    /// Go on with an answer to what was asked last; at first, with [`Answer::Proceed`].
    #[verifier::spinoff_prover]
    pub fn advance(&mut self, answer: Answer) -> (step: Step)
        requires
            old(self).wf(),
            old(self)@.expects(answer),
        ensures
            final(self).wf(),
            (final(self)@, step@) == old(self)@.advance(answer),
    {
        let ghost start = self@;
        let step = self.take_answer(answer);
        proof {
            self.table.lemma_len();
            lemma_advance(start, answer);
        }
        step
    }

    /// Go on with an answer if it is one that the resolver waits for, and leave everything as it is
    /// otherwise.
    pub fn try_advance(&mut self, answer: Answer) -> (step: Option<Step>)
        requires
            old(self).wf(),
        ensures
            final(self).wf(),
            match step {
                Some(step) => old(self)@.expects(answer) && (final(self)@, step@)
                    == old(self)@.advance(answer),
                None => !old(self)@.expects(answer) && *final(self) == *old(self),
            },
    {
        if self.accepts(&answer) {
            Some(self.advance(answer))
        } else {
            None
        }
    }

    /// The dependencies that were found for the state at hand, by the numbers of their packages,
    /// in the order in which they were found. The ranks of the packages are up to them.
    pub fn priorities(&self) -> (priorities: Option<&Vec<(u64, Range)>>)
        ensures
            match priorities {
                Some(priorities) => self@.current matches Some(state) && dependency_views(
                    priorities@,
                ) == state.priorities,
                None => self@.current is None,
            },
    {
        match &self.current {
            Some(state) => Some(state.priorities()),
            None => None,
        }
    }

    /// The number of packages.
    pub fn package_count(&self) -> (count: usize)
        ensures
            count == self@.table.len(),
    {
        self.table.len()
    }

    /// The package with a number.
    pub fn package(&self, number: u64) -> (package: PubGrubPackage)
        requires
            number < self@.table.len(),
        ensures
            package@ == self@.table[number as int],
    {
        self.table.get(number)
    }

    /// Why a package or a version is unavailable, by the number of the reason.
    pub fn reason(&self, number: usize) -> (reason: Option<&UnavailableReason>)
        ensures
            match reason {
                Some(reason) => number < self@.reasons.len() && reason@
                    == self@.reasons[number as int],
                None => number >= self@.reasons.len(),
            },
    {
        if number < self.reasons.len() {
            assert(self@.reasons[number as int] == self.reasons@[number as int]@);
            Some(&self.reasons[number])
        } else {
            None
        }
    }

    /// The packages whose versions were looked at.
    pub fn visited(&self) -> (visited: &KeyedSet<PackageName>)
        ensures
            visited@ == self@.visited,
    {
        &self.visited
    }

    /// Everything that was resolved.
    pub fn into_resolution(self) -> (resolution: Resolution)
        requires
            self.wf(),
        ensures
            resolution.wf(),
            resolution@ == self@.resolution,
            joined(resolution@, self@.finished, self@.table),
            pins_joined(resolution@.pins, self@.finished),
            as_written(forms(resolution.packages.in_order()), self@.finished, self@.table),
            edges_as_written(
                forms(resolution.dependencies.in_order()),
                self@.finished,
                self@.table,
            ),
            all_solved(self@.finished, self@.table.len()),
            self@.in_phase(),
            self@.sound(),
            self@.table.len() <= u64::MAX,
            self@.phase is Finished ==> requirements_resolved(self@) && self@.finished.len() > 0,
            !self@.universal ==> self@.finished.len() <= 1,
            !self@.universal ==> one_version_each(resolution@.packages),
    {
        proof {
            self.table.lemma_len();
            if self@.phase is Finished {
                lemma_requirements_resolved(self@);
                law_a_complete_resolution_is_solved(self@);
            }
        }
        self.resolution
    }
}

} // verus!
