use vstd::prelude::*;

use crate::availability::VersionReason;
use crate::dependencies::{
    expanded_dependencies, expanded_list, first_finding, forked, incomplete_reason, unmarked,
    visits_effects, visits_error, ExpandedView, FindingView,
};
use crate::error::ErrorView;
use crate::forks::DependencyView;
use crate::package::PackageView;
use crate::range::{segments_have, Segment};
use crate::resolution::{edge_at, solved_packages, NamesKey, VersionsKey};
use crate::resolver::DependencyMode;
use crate::selection::{
    candidate_choice, candidate_request, first_choice, metadata_choice, metadata_reason, ChoiceView,
};
use crate::solver::{includes, picked, propagates, provides, respected, respects, solution, Told};
use crate::state::{numbered, with_dependencies, with_pythons, ResolutionView, SolveView};
use crate::step::{EffectView, QueryView, StepView};
use crate::text::uncapitalized;
use crate::transition::{
    decision, depends_on, fork_states, fork_table, marks, Answer, DecisionView, DependenciesView,
    Listing, PhaseView, ResolverView,
};
use crate::version::{PreRelease, PreReleaseKind, VersionKey, VersionParts};

verus! {

/// A resolution that failed or is complete waits for no answer.
pub proof fn law_an_end_is_final(resolver: ResolverView, answer: Answer)
    requires
        resolver.phase is Failed || resolver.phase is Finished,
    ensures
        !resolver.expects(answer),
{
}

/// Whether the step reports an error exactly if the resolution failed, and is done exactly if the
/// resolution is complete.
pub open spec fn ends_match(outcome: (ResolverView, StepView)) -> bool {
    &&& outcome.1.outcome is Err <==> outcome.0.phase is Failed
    &&& outcome.1.outcome == Ok::<QueryView, ErrorView>(QueryView::Done)
        <==> outcome.0.phase is Finished
}

/// Acting on a decision reports an error exactly if it fails.
proof fn lemma_conclude_ends(
    resolver: ResolverView,
    range: Seq<Segment>,
    effects: Seq<EffectView>,
    chosen: DecisionView,
)
    ensures
        ends_match(resolver.conclude(range, effects, chosen)),
{
}

/// Taking expanded dependencies reports an error exactly if it fails.
proof fn lemma_expand_ends(
    resolver: ResolverView,
    version: VersionParts,
    entries: Seq<ExpandedView>,
)
    ensures
        ends_match(resolver.expand(version, entries)),
{
}

/// A step reports an error exactly if the resolution failed, and is told that it is done exactly
/// if the resolution is complete.
#[verifier::spinoff_prover]
pub proof fn law_errors_end_the_resolution(resolver: ResolverView, answer: Answer)
    requires
        resolver.expects(answer),
    ensures
        ends_match(resolver.advance(answer)),
{
    match (resolver.phase, answer) {
        (PhaseView::Ranking, Answer::Ranks(ranks)) => {
            let state = resolver.state().pick(ranks.ranks@);
            if let Some((package, range)) = picked(resolver.state().told, ranks.ranks@) {
                let next = resolver.with(state);
                let tried = seq![EffectView::Tried(resolver.table[package as int])];
                match first_choice(next.package(), range, resolver.installed, resolver.target) {
                    ChoiceView::Chosen(Some(version)) => {
                        lemma_conclude_ends(next, range, tried, DecisionView::Available(version));
                    },
                    ChoiceView::Chosen(None) => {
                        lemma_conclude_ends(next, range, tried, DecisionView::Nothing);
                    },
                    _ => {},
                }
            }
        },
        (PhaseView::Metadata { range }, Answer::Metadata(response)) => {
            if let Some(response) = response {
                lemma_conclude_ends(
                    resolver,
                    range,
                    marks(resolver.name(), metadata_reason(response)),
                    decision(metadata_choice(response, range, resolver.target)),
                );
            }
        },
        (PhaseView::Candidate { range }, Answer::Candidate(candidate)) => {
            let next = resolver.with(resolver.pinned(candidate));
            let effects = match candidate_request(candidate, resolver.package()) {
                Some((id, request)) => seq![EffectView::FetchMetadata { id, request: request@ }],
                None => Seq::empty(),
            };
            lemma_conclude_ends(next, range, effects, decision(candidate_choice(candidate)));
        },
        (
            PhaseView::RootRequirements { version, .. },
            Answer::RootRequirements(Ok(entries)),
        ) => {
            lemma_expand_ends(resolver, version, expanded_list(entries@));
        },
        (
            PhaseView::PackageRequirements { version, .. },
            Answer::PackageRequirements(Ok(entries)),
        ) => {
            lemma_expand_ends(resolver, version, expanded_list(entries@));
        },
        _ => {},
    }
}

/// Whether a missing solution, if that is what the step reports, was concluded by a unit propagation
/// that failed on what the solver of the state had been told.
pub open spec fn is_concluded(
    outcome: Result<QueryView, ErrorView>,
    resolver: ResolverView,
) -> bool {
    outcome matches Err(ErrorView::NoSolution { told, package }) ==> {
        let state = if resolver.current is Some {
            resolver.state()
        } else {
            resolver.waiting.last()
        };
        &&& resolver.current is Some || resolver.waiting.len() > 0
        &&& told == state.told
        &&& package == state.next
        &&& !propagates(told, package)
    }
}

/// Visiting packages never reports a missing solution.
proof fn lemma_visits_are_no_conclusion(entries: Seq<ExpandedView>)
    ensures
        visits_error(entries) matches Some(error) ==> error !is NoSolution,
    decreases entries.len(),
{
    if entries.len() > 0 {
        lemma_visits_are_no_conclusion(entries.drop_last());
    }
}

/// Acting on a decision never reports a missing solution.
proof fn lemma_conclude_is_no_conclusion(
    resolver: ResolverView,
    range: Seq<Segment>,
    effects: Seq<EffectView>,
    chosen: DecisionView,
)
    ensures
        resolver.conclude(range, effects, chosen).1.outcome matches Err(error) ==> error
            !is NoSolution,
{
}

/// Taking expanded dependencies never reports a missing solution.
proof fn lemma_expand_is_no_conclusion(
    resolver: ResolverView,
    version: VersionParts,
    entries: Seq<ExpandedView>,
)
    ensures
        resolver.expand(version, entries).1.outcome matches Err(error) ==> error !is NoSolution,
{
    lemma_visits_are_no_conclusion(entries);
}

/// That there is no solution is only reported if unit propagation failed: on what the solver of the
/// state at hand, or of the next that waits, had been told, from its next package on.
#[verifier::spinoff_prover]
pub proof fn law_a_missing_solution_is_concluded(resolver: ResolverView, answer: Answer)
    requires
        resolver.expects(answer),
        resolver.in_phase(),
    ensures
        is_concluded(resolver.advance(answer).1.outcome, resolver),
{
    match (resolver.phase, answer) {
        (PhaseView::Ranking, Answer::Ranks(ranks)) => {
            let state = resolver.state().pick(ranks.ranks@);
            if let Some((package, range)) = picked(resolver.state().told, ranks.ranks@) {
                let next = resolver.with(state);
                let tried = seq![EffectView::Tried(resolver.table[package as int])];
                match first_choice(next.package(), range, resolver.installed, resolver.target) {
                    ChoiceView::Chosen(Some(version)) => {
                        lemma_conclude_is_no_conclusion(
                            next,
                            range,
                            tried,
                            DecisionView::Available(version),
                        );
                    },
                    ChoiceView::Chosen(None) => {
                        lemma_conclude_is_no_conclusion(next, range, tried, DecisionView::Nothing);
                    },
                    _ => {},
                }
            }
        },
        (PhaseView::Metadata { range }, Answer::Metadata(Some(response))) => {
            lemma_conclude_is_no_conclusion(
                resolver,
                range,
                marks(resolver.name(), metadata_reason(response)),
                decision(metadata_choice(response, range, resolver.target)),
            );
        },
        (PhaseView::Candidate { range }, Answer::Candidate(candidate)) => {
            let next = resolver.with(resolver.pinned(candidate));
            let effects = match candidate_request(candidate, resolver.package()) {
                Some((id, request)) => seq![EffectView::FetchMetadata { id, request: request@ }],
                None => Seq::empty(),
            };
            lemma_conclude_is_no_conclusion(
                next,
                range,
                effects,
                decision(candidate_choice(candidate)),
            );
        },
        (
            PhaseView::RootRequirements { version, .. },
            Answer::RootRequirements(Ok(entries)),
        ) => {
            lemma_expand_is_no_conclusion(resolver, version, expanded_list(entries@));
        },
        (
            PhaseView::PackageRequirements { version, .. },
            Answer::PackageRequirements(Ok(entries)),
        ) => {
            lemma_expand_is_no_conclusion(resolver, version, expanded_list(entries@));
        },
        _ => {},
    }
}

/// Adding packages keeps the numbers of those in the table.
proof fn lemma_tables_grow(table: Seq<PackageView>, dependencies: Seq<DependencyView>)
    ensures
        table.is_prefix_of(with_dependencies(table, dependencies)),
    decreases dependencies.len(),
{
    if dependencies.len() > 0 {
        lemma_tables_grow(table, dependencies.drop_last());
    }
}

/// Adding the packages of forks keeps the numbers of those in the table.
proof fn lemma_fork_tables_grow(table: Seq<PackageView>, forks: Seq<Seq<DependencyView>>)
    ensures
        table.is_prefix_of(fork_table(table, forks)),
    decreases forks.len(),
{
    if forks.len() > 0 {
        let before = forks.drop_last();
        lemma_fork_tables_grow(table, before);
        lemma_tables_grow(fork_table(table, before), forks.last());
    }
}

/// Every fork starts from the state before the fork: it is that state, told one thing more.
pub proof fn law_forks_start_from_the_same_state(
    state: SolveView,
    version: VersionParts,
    table: Seq<PackageView>,
    forks: Seq<Seq<DependencyView>>,
)
    ensures
        fork_states(state, version, table, forks).len() == forks.len(),
        forall|i: int|
            0 <= i < forks.len() ==> (#[trigger] fork_states(state, version, table, forks)[i])
                == state.tell(
                Told::Version {
                    package: state.next,
                    version,
                    dependencies: numbered(fork_table(table, forks.take(i + 1)), forks[i]),
                },
            ),
    decreases forks.len(),
{
    let states = fork_states(state, version, table, forks);
    if forks.len() > 0 {
        let before = forks.drop_last();
        law_forks_start_from_the_same_state(state, version, table, before);
        assert forall|i: int| 0 <= i < forks.len() implies (#[trigger] states[i]) == state.tell(
            Told::Version {
                package: state.next,
                version,
                dependencies: numbered(fork_table(table, forks.take(i + 1)), forks[i]),
            },
        ) by {
            if i < before.len() {
                assert(states[i] == fork_states(state, version, table, before)[i]);
                assert(before.take(i + 1) =~= forks.take(i + 1));
            } else {
                assert(forks.take(i + 1) =~= forks);
            }
        }
    }
}

/// Whether the state continues another one: everything that the other solver was told, this one
/// was told first.
pub open spec fn continues(state: SolveView, other: SolveView) -> bool {
    other.told.is_prefix_of(state.told)
}

/// Whether the state continues one of the resolver's.
pub open spec fn has_origin(resolver: ResolverView, state: SolveView) -> bool {
    ||| resolver.current is Some && continues(state, resolver.state())
    ||| exists|i: int|
        0 <= i < resolver.waiting.len() && continues(state, #[trigger] resolver.waiting[i])
}

/// Whether one resolver comes after another: it keeps the settings, the numbers of packages and
/// reasons, what was visited, what was listed and what was resolved, and each of its states, and
/// each that was solved since, continues one of the other's.
pub open spec fn comes_after(after: ResolverView, before: ResolverView) -> bool {
    &&& after.transitive == before.transitive
    &&& after.universal == before.universal
    &&& after.reporting == before.reporting
    &&& after.installed == before.installed
    &&& after.target == before.target
    &&& before.table.is_prefix_of(after.table)
    &&& before.reasons.is_prefix_of(after.reasons)
    &&& before.visited.subset_of(after.visited)
    &&& before.resolution.packages.subset_of(after.resolution.packages)
    &&& before.resolution.dependencies.subset_of(after.resolution.dependencies)
    &&& before.finished.is_prefix_of(after.finished)
    &&& before.listed.is_prefix_of(after.listed)
    &&& forall|i: int|
        before.finished.len() <= i < after.finished.len() ==> has_origin(
            before,
            #[trigger] after.finished[i],
        )
    &&& after.current is Some ==> has_origin(before, after.state())
    &&& forall|i: int|
        0 <= i < after.waiting.len() ==> has_origin(before, #[trigger] after.waiting[i])
}

/// The state at hand has an origin, and so have those that wait.
proof fn lemma_own_origin(resolver: ResolverView)
    ensures
        comes_after(resolver, resolver),
{
    assert forall|i: int| 0 <= i < resolver.waiting.len() implies has_origin(
        resolver,
        #[trigger] resolver.waiting[i],
    ) by {
        assert(continues(resolver.waiting[i], resolver.waiting[i]));
    }
}

/// What comes after something that comes after a resolver comes after that.
proof fn lemma_comes_after(last: ResolverView, middle: ResolverView, first: ResolverView)
    requires
        comes_after(last, middle),
        comes_after(middle, first),
    ensures
        comes_after(last, first),
{
    assert forall|state: SolveView| has_origin(middle, state) implies #[trigger] has_origin(
        first,
        state,
    ) by {
        let origin = if middle.current is Some && continues(state, middle.state()) {
            middle.state()
        } else {
            middle.waiting[choose|i: int|
                0 <= i < middle.waiting.len() && continues(state, #[trigger] middle.waiting[i])]
        };
        assert(has_origin(first, origin));
        if first.current is Some && continues(origin, first.state()) {
            assert(continues(state, first.state()));
        } else {
            let i = choose|i: int|
                0 <= i < first.waiting.len() && continues(origin, #[trigger] first.waiting[i]);
            assert(continues(state, first.waiting[i]));
        }
    }
    assert forall|i: int| first.finished.len() <= i < last.finished.len() implies has_origin(
        first,
        #[trigger] last.finished[i],
    ) by {
        if i < middle.finished.len() {
            assert(last.finished[i] == middle.finished[i]);
        } else {
            assert(has_origin(middle, last.finished[i]));
        }
    }
}

/// A resolver whose state at hand was told more, and that knows more packages and reasons.
proof fn lemma_told_more(before: ResolverView, after: ResolverView, state: SolveView)
    requires
        before.current is Some,
        continues(state, before.state()),
        before.table.is_prefix_of(after.table),
        before.reasons.is_prefix_of(after.reasons),
        before.visited.subset_of(after.visited),
        after == (ResolverView {
            table: after.table,
            reasons: after.reasons,
            visited: after.visited,
            current: after.current,
            phase: after.phase,
            ..before
        }),
        after.current is None || after.current == Some(state),
    ensures
        comes_after(after, before),
{
    lemma_own_origin(before);
}

/// Settling dependencies keeps what there is.
proof fn lemma_settle_keeps(
    before: ResolverView,
    version: VersionParts,
    effects: Seq<EffectView>,
    dependencies: DependenciesView,
)
    requires
        before.current is Some,
    ensures
        comes_after(before.settle(version, effects, dependencies).0, before),
{
    let after = before.settle(version, effects, dependencies).0;
    let state = before.state();
    lemma_own_origin(before);
    if let DependenciesView::Available(list) = dependencies {
        let forks = forked(list, before.universal);
        lemma_fork_tables_grow(before.table, forks);
        law_forks_start_from_the_same_state(state, version, before.table, forks);
        if !depends_on(list, before.package()) {
            let states = fork_states(state, version, before.table, forks);
            assert forall|i: int| 0 <= i < after.waiting.len() implies has_origin(
                before,
                #[trigger] after.waiting[i],
            ) by {
                if i < before.waiting.len() {
                    assert(after.waiting[i] == before.waiting[i]);
                } else {
                    assert(after.waiting[i] == states[i - before.waiting.len()]);
                    assert(continues(after.waiting[i], state));
                }
            }
        }
    } else {
        assert forall|i: int| 0 <= i < after.waiting.len() implies has_origin(
            before,
            #[trigger] after.waiting[i],
        ) by {
            if i < before.waiting.len() {
                assert(after.waiting[i] == before.waiting[i]);
            } else {
                assert(continues(after.waiting[i], state));
            }
        }
    }
}

/// Taking expanded dependencies keeps what there is.
proof fn lemma_expand_keeps(
    before: ResolverView,
    version: VersionParts,
    entries: Seq<ExpandedView>,
)
    requires
        before.current is Some,
    ensures
        comes_after(before.expand(version, entries).0, before),
{
    let after = before.expand(version, entries).0;
    let state = before.state();
    let dependencies = expanded_dependencies(entries);
    let table = with_dependencies(before.table, dependencies);
    lemma_tables_grow(before.table, dependencies);
    if visits_error(entries) is Some {
        lemma_told_more(before, after, state);
    } else {
        let noted = SolveView {
            priorities: state.priorities + numbered(table, dependencies),
            ..state
        };
        let middle = ResolverView { table, ..before }.with(noted);
        lemma_told_more(before, middle, noted);
        lemma_settle_keeps(
            middle,
            version,
            visits_effects(entries),
            DependenciesView::Available(dependencies + unmarked(before.package(), version)),
        );
        lemma_comes_after(after, middle, before);
    }
}

/// Acting on a decision keeps what there is.
#[verifier::spinoff_prover]
proof fn lemma_conclude_keeps(
    before: ResolverView,
    range: Seq<Segment>,
    effects: Seq<EffectView>,
    chosen: DecisionView,
)
    requires
        before.current is Some,
    ensures
        comes_after(before.conclude(range, effects, chosen).0, before),
{
    let after = before.conclude(range, effects, chosen).0;
    let state = before.state();
    assert(before.table.is_prefix_of(with_pythons(before.table)));
    match chosen {
        DecisionView::Available(version) => {
            let noted = before.with(state.note(version));
            if state.added_dependencies.contains((state.next, version.key())) {
                lemma_told_more(before, after, after.state());
            } else {
                lemma_told_more(before, noted, state.note(version));
                let effects = before.selected(effects, version, range);
                match first_finding(noted.package(), version, noted.transitive) {
                    FindingView::Known(dependencies) => {
                        lemma_settle_keeps(
                            noted,
                            version,
                            effects,
                            DependenciesView::Available(dependencies),
                        );
                        lemma_comes_after(after, noted, before);
                    },
                    _ => {
                        lemma_told_more(before, after, state.note(version));
                    },
                }
            }
        },
        _ => {
            if after.current is Some {
                lemma_told_more(before, after, after.state());
            } else {
                lemma_told_more(before, after, state);
            }
        },
    }
}

/// Going on with the next state keeps what there is.
proof fn lemma_resume_keeps(resolver: ResolverView)
    ensures
        comes_after(resolver.resume().0, resolver),
{
    let after = resolver.resume().0;
    let waiting = resolver.waiting;
    lemma_own_origin(resolver);
    assert forall|i: int| 0 <= i < after.waiting.len() implies has_origin(
        resolver,
        #[trigger] after.waiting[i],
    ) by {
        assert(after.waiting[i] == waiting[i]);
    }
    if after.current is Some {
        if resolver.current is Some {
            assert(continues(after.state(), resolver.state()));
        } else {
            assert(continues(after.state(), waiting[waiting.len() - 1]));
        }
    }
}

/// Picking a package keeps what there is.
#[verifier::spinoff_prover]
proof fn lemma_rank_keeps(resolver: ResolverView, ranks: Seq<Option<(u32, usize)>>)
    requires
        resolver.current is Some,
    ensures
        comes_after(resolver.rank(ranks).0, resolver),
{
    let after = resolver.rank(ranks).0;
    let state = resolver.state().pick(ranks);
    lemma_own_origin(resolver);
    assert(continues(state, resolver.state()));
    if let Some((package, range)) = picked(resolver.state().told, ranks) {
        let middle = resolver.with(state);
        lemma_told_more(resolver, middle, state);
        let tried = seq![EffectView::Tried(resolver.table[package as int])];
        match first_choice(middle.package(), range, resolver.installed, resolver.target) {
            ChoiceView::Chosen(Some(version)) => {
                lemma_conclude_keeps(middle, range, tried, DecisionView::Available(version));
            },
            ChoiceView::Chosen(None) => {
                lemma_conclude_keeps(middle, range, tried, DecisionView::Nothing);
            },
            _ => {
                lemma_told_more(middle, after, state);
            },
        }
        lemma_comes_after(after, middle, resolver);
    } else {
        let n = resolver.finished.len() as int;
        assert(after.finished[n] == state);
    }
}

/// A step keeps what there is: the settings, the numbers of packages and reasons, what was visited,
/// what was listed and what was resolved. Each state that is left or solved continues one that was
/// there: a solver is never made to forget what it was told.
#[verifier::spinoff_prover]
pub proof fn law_steps_only_add(resolver: ResolverView, answer: Answer)
    requires
        resolver.expects(answer),
        resolver.in_phase(),
    ensures
        comes_after(resolver.advance(answer).0, resolver),
{
    let after = resolver.advance(answer).0;
    lemma_own_origin(resolver);
    match (resolver.phase, answer) {
        (PhaseView::Ready, _) => {
            lemma_resume_keeps(resolver);
        },
        (PhaseView::Ranking, Answer::Ranks(ranks)) => {
            lemma_rank_keeps(resolver, ranks.ranks@);
        },
        (PhaseView::Metadata { range }, Answer::Metadata(response)) => {
            if let Some(response) = response {
                lemma_conclude_keeps(
                    resolver,
                    range,
                    marks(
                        resolver.name(),
                        metadata_reason(response),
                    ),
                    decision(metadata_choice(response, range, resolver.target)),
                );
            } else {
                lemma_told_more(resolver, after, resolver.state());
            }
        },
        (PhaseView::Versions { range }, Answer::Versions(_)) => {
            lemma_told_more(resolver, after, resolver.state());
        },
        (PhaseView::Candidate { range }, Answer::Candidate(candidate)) => {
            let state = resolver.pinned(candidate);
            let middle = resolver.with(state);
            lemma_told_more(resolver, middle, state);
            let effects = match candidate_request(
                candidate,
                resolver.package(),
            ) {
                Some((id, request)) => seq![EffectView::FetchMetadata { id, request: request@ }],
                None => Seq::empty(),
            };
            lemma_conclude_keeps(
                middle,
                range,
                effects,
                decision(candidate_choice(candidate)),
            );
            lemma_comes_after(after, middle, resolver);
        },
        (PhaseView::Reason { range }, Answer::Reason(_)) => {
            lemma_told_more(resolver, after, after.state());
        },
        (
            PhaseView::RootRequirements { version, .. },
            Answer::RootRequirements(requirements),
        ) => match requirements {
            Ok(entries) => {
                lemma_expand_keeps(resolver, version, expanded_list(entries@));
            },
            Err(text) => {
                lemma_settle_keeps(
                    resolver,
                    version,
                    Seq::empty(),
                    DependenciesView::Unavailable(
                        VersionReason::ResolverError(
                            uncapitalized(text@),
                        ),
                    ),
                );
            },
        },
        (PhaseView::DirectMetadata { version, .. }, Answer::DirectMetadata(registered)) => {
            if registered {
                lemma_settle_keeps(
                    resolver,
                    version,
                    Seq::empty(),
                    DependenciesView::Available(Seq::empty()),
                );
            } else {
                lemma_told_more(resolver, after, resolver.state());
            }
        },
        (PhaseView::Availability { .. }, Answer::Availability { .. }) => {
            lemma_told_more(resolver, after, resolver.state());
        },
        (PhaseView::PackageMetadata { version, .. }, Answer::PackageMetadata(response)) => {
            if response is Some && incomplete_reason(response->0) is Some {
                let (incomplete, reason) = incomplete_reason(response->0)->0;
                lemma_settle_keeps(
                    resolver,
                    version,
                    seq![EffectView::MarkIncomplete(resolver.name(), version, incomplete)],
                    DependenciesView::Unavailable(reason@),
                );
            } else {
                lemma_told_more(resolver, after, resolver.state());
            }
        },
        (
            PhaseView::PackageRequirements { version, .. },
            Answer::PackageRequirements(requirements),
        ) => match requirements {
            Ok(entries) => {
                lemma_expand_keeps(resolver, version, expanded_list(entries@));
            },
            Err(_) => {
                lemma_told_more(resolver, after, resolver.state());
            },
        },
        _ => {},
    }
}

/// The version whose dependencies the resolver is about to ask for.
pub open spec fn asks_for_dependencies(resolver: ResolverView) -> Option<VersionParts> {
    match resolver.phase {
        PhaseView::RootRequirements { version, .. } => Some(version),
        PhaseView::DirectMetadata { version, .. } => Some(version),
        PhaseView::Availability { version, .. } => Some(version),
        _ => None,
    }
}

/// Whether dependencies are only asked for if the state had not retrieved them, and count as
/// retrieved from then on.
pub open spec fn asks_anew(state: SolveView, after: ResolverView) -> bool {
    asks_for_dependencies(after) matches Some(version) ==> {
        &&& after.current is Some
        &&& !state.added_dependencies.contains((after.state().next, version.key()))
        &&& after.state().added_dependencies == state.added_dependencies.insert(
            (after.state().next, version.key()),
        )
    }
}

/// Acting on a decision asks for dependencies only anew.
proof fn lemma_conclude_asks(
    resolver: ResolverView,
    range: Seq<Segment>,
    effects: Seq<EffectView>,
    chosen: DecisionView,
)
    requires
        resolver.current is Some,
    ensures
        asks_anew(resolver.state(), resolver.conclude(range, effects, chosen).0),
{
}

/// Expanding requirements asks for no dependencies.
proof fn lemma_expand_asks(
    resolver: ResolverView,
    version: VersionParts,
    entries: Seq<ExpandedView>,
)
    ensures
        asks_for_dependencies(resolver.expand(version, entries).0) is None,
{
}

/// The dependencies of a package at a version are asked for only once on the way of a state: only
/// if they were not retrieved before, and from then on they count as retrieved.
#[verifier::spinoff_prover]
pub proof fn law_dependencies_are_retrieved_once(resolver: ResolverView, answer: Answer)
    requires
        resolver.expects(answer),
        resolver.in_phase(),
    ensures
        asks_for_dependencies(resolver.advance(answer).0) is Some ==> resolver.current is Some
            && asks_anew(resolver.state(), resolver.advance(answer).0),
{
    match (resolver.phase, answer) {
        (PhaseView::Ranking, Answer::Ranks(ranks)) => {
            let state = resolver.state().pick(ranks.ranks@);
            if let Some((package, range)) = picked(resolver.state().told, ranks.ranks@) {
                let next = resolver.with(state);
                let tried = seq![EffectView::Tried(resolver.table[package as int])];
                match first_choice(next.package(), range, resolver.installed, resolver.target) {
                    ChoiceView::Chosen(Some(version)) => {
                        lemma_conclude_asks(next, range, tried, DecisionView::Available(version));
                    },
                    ChoiceView::Chosen(None) => {
                        lemma_conclude_asks(next, range, tried, DecisionView::Nothing);
                    },
                    _ => {},
                }
            }
        },
        (PhaseView::Metadata { range }, Answer::Metadata(Some(response))) => {
            lemma_conclude_asks(
                resolver,
                range,
                marks(resolver.name(), metadata_reason(response)),
                decision(metadata_choice(response, range, resolver.target)),
            );
        },
        (PhaseView::Candidate { range }, Answer::Candidate(candidate)) => {
            let next = resolver.with(resolver.pinned(candidate));
            let effects = match candidate_request(candidate, resolver.package()) {
                Some((id, request)) => seq![EffectView::FetchMetadata { id, request: request@ }],
                None => Seq::empty(),
            };
            lemma_conclude_asks(next, range, effects, decision(candidate_choice(candidate)));
        },
        (
            PhaseView::RootRequirements { version, .. },
            Answer::RootRequirements(Ok(entries)),
        ) => {
            lemma_expand_asks(resolver, version, expanded_list(entries@));
        },
        (
            PhaseView::PackageRequirements { version, .. },
            Answer::PackageRequirements(Ok(entries)),
        ) => {
            lemma_expand_asks(resolver, version, expanded_list(entries@));
        },
        _ => {},
    }
}

/// The dependencies that requirements stand for are listed as they are: after an answer with the
/// requirements of a package, the last listing is that package with those dependencies, and with
/// the one on itself without a marker if it has a marker, unless the resolution failed.
pub proof fn law_requirements_are_listed(resolver: ResolverView, answer: Answer)
    requires
        resolver.expects(answer),
        resolver.in_phase(),
        answer is RootRequirements || answer is PackageRequirements,
    ensures
        ({
            let after = resolver.advance(answer).0;
            let requirements = match answer {
                Answer::RootRequirements(requirements) => requirements,
                _ => answer->PackageRequirements_0,
            };
            let version = asks_for_requirements(resolver);
            requirements matches Ok(entries) ==> after.phase !is Failed ==> after.listed
                == resolver.listed.push(
                Listing {
                    package: resolver.package(),
                    version,
                    dependencies: expanded_dependencies(expanded_list(entries@)) + unmarked(
                        resolver.package(),
                        version,
                    ),
                },
            )
        }),
{
    let requirements = match answer {
        Answer::RootRequirements(requirements) => requirements,
        _ => answer->PackageRequirements_0,
    };
    if let Ok(entries) = requirements {
        lemma_tables_grow(resolver.table, expanded_dependencies(expanded_list(entries@)));
    }
}

/// The version whose requirements the resolver asked for.
pub open spec fn asks_for_requirements(resolver: ResolverView) -> VersionParts {
    match resolver.phase {
        PhaseView::RootRequirements { version, .. } => version,
        _ => resolver.phase->PackageRequirements_version,
    }
}

/// Whether at most one state is left.
pub open spec fn has_one_state(resolver: ResolverView) -> bool {
    &&& resolver.current is Some ==> resolver.waiting.len() == 0
    &&& resolver.waiting.len() <= 1
}

/// Settling dependencies of a single state leaves a single state.
proof fn lemma_settle_leaves_one(
    resolver: ResolverView,
    version: VersionParts,
    effects: Seq<EffectView>,
    dependencies: DependenciesView,
)
    requires
        !resolver.universal,
        resolver.waiting.len() == 0,
    ensures
        has_one_state(resolver.settle(version, effects, dependencies).0),
{
    if let DependenciesView::Available(list) = dependencies {
        law_forks_start_from_the_same_state(
            resolver.state(),
            version,
            resolver.table,
            forked(list, false),
        );
    }
}

/// Acting on a decision on a single state leaves a single state.
proof fn lemma_conclude_leaves_one(
    resolver: ResolverView,
    range: Seq<Segment>,
    effects: Seq<EffectView>,
    chosen: DecisionView,
)
    requires
        !resolver.universal,
        resolver.waiting.len() == 0,
    ensures
        has_one_state(resolver.conclude(range, effects, chosen).0),
{
    if let DecisionView::Available(version) = chosen {
        let noted = resolver.with(resolver.state().note(version));
        if let FindingView::Known(list) = first_finding(
            noted.package(),
            version,
            resolver.transitive,
        ) {
            lemma_settle_leaves_one(
                noted,
                version,
                resolver.selected(effects, version, range),
                DependenciesView::Available(list),
            );
        }
    }
}

/// Taking expanded dependencies of a single state leaves a single state.
proof fn lemma_expand_leaves_one(
    resolver: ResolverView,
    version: VersionParts,
    entries: Seq<ExpandedView>,
)
    requires
        !resolver.universal,
        resolver.waiting.len() == 0,
    ensures
        has_one_state(resolver.expand(version, entries).0),
{
    let state = resolver.state();
    let dependencies = expanded_dependencies(entries);
    let table = with_dependencies(resolver.table, dependencies);
    let next = ResolverView { table, ..resolver }.with(
        SolveView { priorities: state.priorities + numbered(table, dependencies), ..state },
    );
    lemma_settle_leaves_one(
        next,
        version,
        visits_effects(entries),
        DependenciesView::Available(dependencies + unmarked(resolver.package(), version)),
    );
}

/// For a single environment the resolution never forks: of one state, every step leaves at most
/// one.
#[verifier::spinoff_prover]
pub proof fn law_one_environment_never_forks(resolver: ResolverView, answer: Answer)
    requires
        resolver.expects(answer),
        resolver.in_phase(),
        !resolver.universal,
        has_one_state(resolver),
    ensures
        has_one_state(resolver.advance(answer).0),
{
    match (resolver.phase, answer) {
        (PhaseView::Ranking, Answer::Ranks(ranks)) => {
            let state = resolver.state().pick(ranks.ranks@);
            if let Some((package, range)) = picked(resolver.state().told, ranks.ranks@) {
                let next = resolver.with(state);
                let tried = seq![EffectView::Tried(resolver.table[package as int])];
                match first_choice(next.package(), range, resolver.installed, resolver.target) {
                    ChoiceView::Chosen(Some(version)) => {
                        lemma_conclude_leaves_one(next, range, tried, DecisionView::Available(version));
                    },
                    ChoiceView::Chosen(None) => {
                        lemma_conclude_leaves_one(next, range, tried, DecisionView::Nothing);
                    },
                    _ => {},
                }
            }
        },
        (PhaseView::Metadata { range }, Answer::Metadata(Some(response))) => {
            lemma_conclude_leaves_one(
                resolver,
                range,
                marks(resolver.name(), metadata_reason(response)),
                decision(metadata_choice(response, range, resolver.target)),
            );
        },
        (PhaseView::Candidate { range }, Answer::Candidate(candidate)) => {
            let next = resolver.with(resolver.pinned(candidate));
            let effects = match candidate_request(candidate, resolver.package()) {
                Some((id, request)) => seq![EffectView::FetchMetadata { id, request: request@ }],
                None => Seq::empty(),
            };
            lemma_conclude_leaves_one(next, range, effects, decision(candidate_choice(candidate)));
        },
        (
            PhaseView::RootRequirements { version, .. },
            Answer::RootRequirements(Ok(entries)),
        ) => {
            lemma_expand_leaves_one(resolver, version, expanded_list(entries@));
        },
        (
            PhaseView::PackageRequirements { version, .. },
            Answer::PackageRequirements(Ok(entries)),
        ) => {
            lemma_expand_leaves_one(resolver, version, expanded_list(entries@));
        },
        (PhaseView::DirectMetadata { version, .. }, Answer::DirectMetadata(_)) => {
            lemma_settle_leaves_one(
                resolver,
                version,
                Seq::empty(),
                DependenciesView::Available(Seq::empty()),
            );
        },
        _ => {},
    }
}

/// Whether the package is a named one with that name, and with that extra.
pub open spec fn is_named(package: PackageView, name: Seq<char>, extra: Option<Seq<char>>) -> bool {
    match package {
        PackageView::Package { name: own, extra: own_extra, .. } => own == name && own_extra
            == extra,
        PackageView::Extra { name: own, extra: own_extra, .. } => own == name && Some(own_extra)
            == extra,
        _ => false,
    }
}

/// Which depends on which is only said of packages that were resolved: both ends are there, at the
/// versions and with the extras that are named. No package is said to depend on itself.
pub proof fn law_dependencies_join_resolved_packages(
    state: SolveView,
    table: Seq<PackageView>,
    names: NamesKey,
    versions: VersionsKey,
)
    requires
        state.resolution(table).dependencies.contains((names, versions)),
    ensures
        names.from != names.to,
        exists|package: PackageView| #[trigger]
            state.resolution(table).packages.contains((package, versions.from_version))
                && is_named(package, names.from, versions.from_extra),
        exists|package: PackageView| #[trigger]
            state.resolution(table).packages.contains((package, versions.to_version)) && is_named(
                package,
                names.to,
                versions.to_extra,
            ),
{
    let edge = (names, versions);
    let packages = state.resolution(table).packages;
    let (i, k, j) = choose|i: int, k: int, j: int| #[trigger]
        edge_at(state.told, table, i, k, j, edge);
    let list = solved_packages(state.told, table);
    let entries = solution(state.told);
    assert(list[i] == (table[entries[i].0 as int], entries[i].1.key()));
    assert(list[j] == (table[entries[j].0 as int], entries[j].1.key()));
    let from = table[entries[i].0 as int];
    let to = table[entries[j].0 as int];
    assert(packages.contains((from, versions.from_version)));
    assert(packages.contains((to, versions.to_version)));
    assert(is_named(from, names.from, versions.from_extra));
    assert(is_named(to, names.to, versions.to_extra));
}

/// Together with a package, its dependencies are resolved: if a solved state includes a package at
/// a version whose dependencies its solver was told, it resolves each of them in its range.
pub proof fn law_dependencies_are_resolved(
    state: SolveView,
    table: Seq<PackageView>,
    k: int,
    i: int,
)
    requires
        respected(state.told, solution(state.told)),
        0 <= k < state.told.len(),
        state.told[k] matches Told::Version { package, version, dependencies } && includes(
            solution(state.told),
            package,
            version,
        ) && 0 <= i < dependencies.len(),
    ensures
        ({
            let (dependency, range) = state.told[k]->dependencies[i];
            exists|version: VersionKey| #[trigger]
                state.resolution(table).packages.contains((table[dependency as int], version))
                    && segments_have(range, version)
        }),
{
    let packages = solution(state.told);
    assert(respects(state.told[k], packages));
    let (dependency, range) = state.told[k]->dependencies[i];
    assert(provides(packages, dependency, range));
    let j = choose|j: int|
        0 <= j < packages.len() && (#[trigger] packages[j]).0 == dependency && segments_have(
            range,
            packages[j].1.key(),
        );
    assert(solved_packages(state.told, table)[j] == (
        table[dependency as int],
        packages[j].1.key(),
    ));
    assert(state.resolution(table).packages.contains(
        (table[dependency as int], packages[j].1.key()),
    ));
}

/// What was ruled out is not resolved: a solved state does not resolve a package at a version that
/// its solver was told to be unavailable.
pub proof fn law_unavailable_versions_are_not_resolved(
    state: SolveView,
    table: Seq<PackageView>,
    k: int,
)
    requires
        respected(state.told, solution(state.told)),
        state.solved_within(table.len()),
        table.no_duplicates(),
        0 <= k < state.told.len(),
        state.told[k] matches Told::UnavailableVersion { package, .. } && package < table.len(),
    ensures
        state.told[k] matches Told::UnavailableVersion { package, version, .. }
            && !state.resolution(table).packages.contains(
            (table[package as int], version.key()),
        ),
{
    let packages = solution(state.told);
    assert(respects(state.told[k], packages));
    if let Told::UnavailableVersion { package, version, .. } = state.told[k] {
        let list = solved_packages(state.told, table);
        if state.resolution(table).packages.contains((table[package as int], version.key())) {
            let j = choose|j: int|
                0 <= j < list.len() && list[j] == (table[package as int], version.key());
            assert(packages[j].0 < table.len());
            assert(packages[j].0 == package);
            assert(includes(packages, package, version));
        }
    }
}

/// The order in which two resolutions are joined does not matter for the packages and for which
/// depends on which. It does not matter for the pins either, if both pin to the same distributions
/// what both pin.
pub proof fn law_joining_resolutions_commutes(one: ResolutionView, other: ResolutionView)
    ensures
        one.union(other).packages == other.union(one).packages,
        one.union(other).dependencies == other.union(one).dependencies,
        one.pins.agrees(other.pins) ==> one.union(other).pins == other.union(one).pins,
{
    assert(one.union(other).packages =~= other.union(one).packages);
    assert(one.union(other).dependencies =~= other.union(one).dependencies);
    if one.pins.agrees(other.pins) {
        assert(one.union(other).pins =~= other.union(one).pins);
    }
}

/// It does not matter which of three resolutions are joined first.
pub proof fn law_joining_resolutions_is_associative(
    one: ResolutionView,
    two: ResolutionView,
    three: ResolutionView,
)
    ensures
        one.union(two).union(three) == one.union(two.union(three)),
{
    let left = one.union(two).union(three);
    let right = one.union(two.union(three));
    assert(left.packages =~= right.packages);
    assert(left.dependencies =~= right.dependencies);
    assert(left.pins =~= right.pins);
}

/// A resolver starts with a single state to solve, in which the solver knows of the root alone, and
/// with the choices that it was given. Nothing was asked, visited or resolved.
pub proof fn law_a_resolver_starts_with_the_root(
    root: PackageView,
    mode: DependencyMode,
    universal: bool,
    installed: VersionParts,
    target: VersionParts,
)
    ensures
        ({
            let resolver = ResolverView::start(root, mode, universal, installed, target);
            &&& resolver.transitive <==> mode == DependencyMode::Transitive
            &&& resolver.universal == universal
            &&& !resolver.reporting
            &&& resolver.installed == installed
            &&& resolver.target == target
            &&& resolver.table.len() == 1
            &&& resolver.table[0] == root
            &&& resolver.reasons.len() == 0
            &&& forall|name: Seq<char>| !#[trigger] resolver.visited.contains(name)
            &&& resolver.current is None
            &&& resolver.waiting.len() == 1
            &&& resolver.finished.len() == 0
            &&& resolver.listed.len() == 0
            &&& resolver.phase is Ready
        }),
        ({
            let resolver = ResolverView::start(root, mode, universal, installed, target);
            &&& forall|solved: (PackageView, VersionKey)| !#[trigger]
                resolver.resolution.packages.contains(solved)
            &&& resolver.resolution.dependencies.is_empty()
            &&& resolver.resolution.pins.dom().is_empty()
        }),
        ({
            let state = ResolverView::start(root, mode, universal, installed, target).waiting[0];
            &&& state.told.len() == 1
            &&& state.told[0] matches Told::Root { package, version } && package == 0
                && version.epoch == 0 && version.release == seq![0u64] && version.pre == Some(
                PreRelease { kind: PreReleaseKind::Alpha, number: 0 },
            ) && version.post is None && version.dev == Some(0u64) && version.local.len() == 0
                && version.edge is Within
            &&& state.next == 0
            &&& state.pins.dom().is_empty()
            &&& state.priorities.len() == 0
            &&& state.added_dependencies.is_empty()
        }),
{
}

/// Reporting is switched on, and nothing else changes.
pub proof fn law_reporting_changes_nothing_else(resolver: ResolverView)
    ensures
        resolver.reports().reporting,
        resolver.reports().transitive == resolver.transitive,
        resolver.reports().universal == resolver.universal,
        resolver.reports().installed == resolver.installed,
        resolver.reports().target == resolver.target,
        resolver.reports().table == resolver.table,
        resolver.reports().reasons == resolver.reasons,
        resolver.reports().visited == resolver.visited,
        resolver.reports().current == resolver.current,
        resolver.reports().waiting == resolver.waiting,
        resolver.reports().finished == resolver.finished,
        resolver.reports().listed == resolver.listed,
        resolver.reports().resolution == resolver.resolution,
        resolver.reports().phase == resolver.phase,
{
}

} // verus!
