use vstd::prelude::*;

use crate::availability::{
    IncompatibleDist, IncompletePackage, Reason, ResolverVersion, UnavailablePackage,
    UnavailableVersion, VersionReason,
};
use crate::choices::{
    asks_for, holds_only, law_extras_depend_on_their_packages, law_metadata_gives_its_version,
    metadata_request,
};
use crate::dependencies::{
    expanded_dependencies, expanded_list, first_finding, forked, unmarked, visits_effects,
    visits_error, Expanded, FindingView,
};
use crate::dist::{ResolvedDist, ResolvedDistRef};
use crate::error::ErrorView;
use crate::forks::{all_named, DependencyView};
use crate::package::{PackageView, PubGrubPython};
use crate::pep440::min_version_parts;
use crate::python::{all_segments, first_without_range, specifier_parts};
use crate::range::{segments_have, Segment};
use crate::request::RequestView;
use crate::selection::{
    metadata_choice, python_reason, Candidate, CandidateDist, Metadata, MetadataResponse,
    VersionsResponse,
};
use crate::solver::{candidates, picked, propagates, Ranks, Told};
use crate::specifier::{SpecifierParts, VersionSpecifier};
use crate::state::{
    number_of, numbered, prefetches, with_dependencies, with_package, with_pythons, SolveView,
};
use crate::step::{EffectView, QueryView, SelectionView, StepView};
use crate::support::{entered, lemma_fork_members, lemma_forks, lemma_with_dependencies, rooted};
use crate::text::lowercase_of;
use crate::transition::{
    depends_on, fork_states, sends, Answer, DecisionView, DependenciesView, Listing, PhaseView,
    ResolverView,
};
use crate::version::{Version, VersionParts};

verus! {

/// Whether the resolver only goes on to another phase with another state at hand, and asks a
/// question after some effects.
pub open spec fn asks(
    outcome: (ResolverView, StepView),
    before: ResolverView,
    state: SolveView,
    phase: PhaseView,
    effects: Seq<EffectView>,
    query: QueryView,
) -> bool {
    &&& outcome.0 == (ResolverView { current: Some(state), phase, ..before })
    &&& outcome.1.effects == effects
    &&& outcome.1.outcome == Ok::<QueryView, ErrorView>(query)
}

/// Whether the resolver fails with the error, after some effects, and changes nothing else.
pub open spec fn fails(
    outcome: (ResolverView, StepView),
    before: ResolverView,
    effects: Seq<EffectView>,
    error: ErrorView,
) -> bool {
    &&& outcome.0 == (ResolverView { current: None, phase: PhaseView::Failed, ..before })
    &&& outcome.1.effects == effects
    &&& outcome.1.outcome == Err::<QueryView, ErrorView>(error)
}

/// The state whose solver was told one thing more.
pub open spec fn told_more(state: SolveView, step: Told) -> SolveView {
    SolveView { told: state.told.push(step), ..state }
}

/// The effects of selecting a version of the package that is next: further versions may be fetched
/// ahead of time, and progress is reported if it is to be.
pub open spec fn selecting(
    resolver: ResolverView,
    version: VersionParts,
    range: Seq<Segment>,
) -> Seq<EffectView> {
    let batches = seq![EffectView::PrefetchBatches { package: resolver.package(), version, range }];
    match resolver.package() {
        PackageView::Package { name, url, .. } => if resolver.reporting {
            let selection = match url {
                Some(url) => SelectionView::Url(url),
                None => SelectionView::Version(version),
            };
            batches + seq![EffectView::Progress(name, selection)]
        } else {
            batches
        },
        _ => batches,
    }
}

/// If there is no version of a package, it is asked why, and nothing is told yet. Of any other
/// package every version in the range is ruled out.
pub proof fn law_a_missing_version_is_looked_into(
    resolver: ResolverView,
    range: Seq<Segment>,
    effects: Seq<EffectView>,
)
    requires
        resolver.current is Some,
    ensures
        ({
            let outcome = resolver.conclude(range, effects, DecisionView::Nothing);
            let state = resolver.state();
            &&& resolver.package() matches PackageView::Package { name, .. } ==> asks(
                outcome,
                resolver,
                state,
                PhaseView::Reason { range },
                effects,
                QueryView::Unavailable { name },
            )
            &&& !(resolver.package() is Package) ==> asks(
                outcome,
                resolver,
                told_more(state, Told::NoVersions { package: state.next, range }),
                PhaseView::Ready,
                effects,
                QueryView::Proceed,
            )
        }),
{
}

/// A version that cannot be used, for a reason other than Python, is ruled out, and the reason is
/// kept under the number that the solver is told.
pub proof fn law_an_unusable_version_is_ruled_out(
    resolver: ResolverView,
    range: Seq<Segment>,
    effects: Seq<EffectView>,
    version: VersionParts,
    reason: UnavailableVersion,
)
    requires
        resolver.current is Some,
        resolver.reasons.len() <= usize::MAX,
        reason matches UnavailableVersion::IncompatibleDist(dist) ==> match dist {
            IncompatibleDist::Wheel(wheel) => !(wheel is RequiresPython),
            IncompatibleDist::Source(source) => !(source is RequiresPython),
            IncompatibleDist::Unavailable => true,
        },
    ensures
        ({
            let number = resolver.reasons.len();
            let state = resolver.state();
            let step = Told::UnavailableVersion {
                package: state.next,
                version,
                reason: number as usize,
            };
            let after = resolver.conclude(
                range,
                effects,
                DecisionView::Unavailable(version, reason),
            );
            &&& asks(
                after,
                ResolverView { reasons: after.0.reasons, ..resolver },
                told_more(state, step),
                PhaseView::Ready,
                effects,
                QueryView::Proceed,
            )
            &&& after.0.reasons == resolver.reasons.push(Reason::Version(reason@))
        }),
{
}

/// A version that only some Python versions can use is decided on, and depends on them: on both
/// Python packages, in the range that all specifiers give together.
pub proof fn law_an_unsupported_version_depends_on_python(
    resolver: ResolverView,
    range: Seq<Segment>,
    effects: Seq<EffectView>,
    version: VersionParts,
    specifiers: Vec<VersionSpecifier>,
    reason: UnavailableVersion,
)
    requires
        resolver.current is Some,
        python_reason(reason) == Some(specifiers),
        forall|i: int|
            0 <= i < specifiers@.len() ==> !(#[trigger] specifiers@[i])@.is_invalid_tilde(),
    ensures
        ({
            let after = resolver.conclude(
                range,
                effects,
                DecisionView::Unavailable(version, reason),
            );
            let state = resolver.state();
            let table = after.0.table;
            let python = all_segments(specifier_parts(specifiers@));
            let installed = number_of(table, PackageView::Python(PubGrubPython::Installed));
            let target = number_of(table, PackageView::Python(PubGrubPython::Target));
            &&& asks(
                after,
                ResolverView { table, ..resolver },
                told_more(
                    told_more(
                        told_more(
                            state,
                            Told::Dependency {
                                package: state.next,
                                version,
                                dependency: installed,
                                range: python,
                            },
                        ),
                        Told::Dependency {
                            package: state.next,
                            version,
                            dependency: target,
                            range: python,
                        },
                    ),
                    Told::Decision { package: state.next, version },
                ),
                PhaseView::Ready,
                effects,
                QueryView::Proceed,
            )
            &&& table.contains(PackageView::Python(PubGrubPython::Installed))
            &&& table.contains(PackageView::Python(PubGrubPython::Target))
            &&& resolver.table.is_prefix_of(table)
            &&& table.len() <= resolver.table.len() + 2
        }),
{
    let parts = specifier_parts(specifiers@);
    assert forall|i: int| 0 <= i < parts.len() implies !(#[trigger] parts[i]).is_invalid_tilde() by {
        assert(parts[i] == specifiers@[i]@);
    }
    lemma_no_invalid(parts);
    let installed = PackageView::Python(PubGrubPython::Installed);
    let target = PackageView::Python(PubGrubPython::Target);
    let middle = with_package(resolver.table, installed);
    let table = with_pythons(resolver.table);
    if !resolver.table.contains(installed) {
        assert(middle[resolver.table.len() as int] == installed);
    }
    assert(middle.contains(installed));
    let i = choose|i: int| 0 <= i < middle.len() && middle[i] == installed;
    assert(table[i] == installed);
    if !middle.contains(target) {
        assert(table[middle.len() as int] == target);
    }
}

/// Specifiers that all have a range have no first one that has none.
proof fn lemma_no_invalid(parts: Seq<SpecifierParts>)
    requires
        forall|i: int| 0 <= i < parts.len() ==> !(#[trigger] parts[i]).is_invalid_tilde(),
    ensures
        first_without_range(parts) is None,
    decreases parts.len(),
{
    if parts.len() > 0 {
        let before = parts.drop_last();
        assert forall|i: int| 0 <= i < before.len() implies !(
        #[trigger] before[i]).is_invalid_tilde() by {
            assert(before[i] == parts[i]);
        }
        lemma_no_invalid(before);
        assert(parts[parts.len() - 1] == parts.last());
    }
}

/// An available version is selected. If its dependencies were retrieved before, it is decided on
/// right away, with nothing else told.
pub proof fn law_a_known_version_is_decided_on(
    resolver: ResolverView,
    range: Seq<Segment>,
    effects: Seq<EffectView>,
    version: VersionParts,
)
    requires
        resolver.current is Some,
        resolver.state().added_dependencies.contains((resolver.state().next, version.key())),
    ensures
        asks(
            resolver.conclude(range, effects, DecisionView::Available(version)),
            resolver,
            told_more(
                resolver.state(),
                Told::Decision { package: resolver.state().next, version },
            ),
            PhaseView::Ready,
            effects + selecting(resolver, version, range),
            QueryView::Proceed,
        ),
{
    let state = resolver.state();
    assert(state.added_dependencies.insert((state.next, version.key()))
        =~= state.added_dependencies);
    lemma_selecting(resolver, range, effects, version);
}

/// The effects of selecting a version come after those before.
proof fn lemma_selecting(
    resolver: ResolverView,
    range: Seq<Segment>,
    effects: Seq<EffectView>,
    version: VersionParts,
)
    ensures
        resolver.selected(effects, version, range) == effects + selecting(resolver, version, range),
{
    assert(resolver.selected(effects, version, range) =~= effects + selecting(
        resolver,
        version,
        range,
    ));
}

/// An available version whose dependencies were not retrieved before is selected and noted, and
/// then its dependencies are looked for: those of the root are asked for, of a package it is asked
/// whether it is available or, when only direct dependencies are wanted, whether its metadata is
/// there, in both cases with its name, version and URL.
pub proof fn law_dependencies_of_a_new_version_are_asked_for(
    resolver: ResolverView,
    range: Seq<Segment>,
    effects: Seq<EffectView>,
    version: VersionParts,
)
    requires
        resolver.current is Some,
        !resolver.state().added_dependencies.contains((resolver.state().next, version.key())),
        resolver.package() is Root || resolver.package() is Package,
    ensures
        ({
            let state = resolver.state();
            let noted = SolveView {
                added_dependencies: state.added_dependencies.insert((state.next, version.key())),
                ..state
            };
            let outcome = resolver.conclude(range, effects, DecisionView::Available(version));
            let all = effects + selecting(resolver, version, range);
            &&& resolver.package() is Root ==> asks(
                outcome,
                resolver,
                noted,
                PhaseView::RootRequirements { version, range },
                all,
                QueryView::RootRequirements,
            )
            &&& resolver.package() matches PackageView::Package { name, .. } ==> resolver.transitive
                ==> asks(
                outcome,
                resolver,
                noted,
                PhaseView::Availability { version, range },
                all,
                QueryView::Availability { name },
            )
            &&& resolver.package() matches PackageView::Package { name, url, .. }
                ==> !resolver.transitive ==> asks(
                outcome,
                resolver,
                noted,
                PhaseView::DirectMetadata { version, range },
                all,
                QueryView::DirectMetadata { name, version, url },
            )
        }),
{
    lemma_selecting(resolver, range, effects, version);
}

/// The dependencies of Python and of the package of an extra are settled without a question, once
/// the version is selected and noted: none for Python, and for an extra its package without and
/// with it.
pub proof fn law_dependencies_of_other_versions_are_known(
    resolver: ResolverView,
    range: Seq<Segment>,
    effects: Seq<EffectView>,
    version: VersionParts,
)
    requires
        resolver.current is Some,
        !resolver.state().added_dependencies.contains((resolver.state().next, version.key())),
        resolver.package() is Python || resolver.package() is Extra,
    ensures
        ({
            let state = resolver.state();
            let noted = SolveView {
                added_dependencies: state.added_dependencies.insert((state.next, version.key())),
                ..state
            };
            let outcome = resolver.conclude(range, effects, DecisionView::Available(version));
            let all = effects + selecting(resolver, version, range);
            &&& resolver.package() is Python ==> outcome == resolver.with(noted).settle(
                version,
                all,
                DependenciesView::Available(Seq::empty()),
            )
            &&& resolver.package() matches PackageView::Extra { name, extra, marker, url }
                ==> exists|dependencies: Seq<DependencyView>|
                {
                    &&& dependencies.len() == 2
                    &&& dependencies[0].package == (PackageView::Package {
                        name,
                        extra: None,
                        marker,
                        url,
                    })
                    &&& dependencies[1].package == (PackageView::Package {
                        name,
                        extra: Some(extra),
                        marker,
                        url,
                    })
                    &&& holds_only(dependencies[0].range, version)
                    &&& holds_only(dependencies[1].range, version)
                    &&& outcome == #[trigger] resolver.with(noted).settle(
                        version,
                        all,
                        DependenciesView::Available(dependencies),
                    )
                }
        }),
{
    lemma_selecting(resolver, range, effects, version);
    if let PackageView::Extra { name, extra, marker, url } = resolver.package() {
        law_extras_depend_on_their_packages(
            name,
            extra,
            marker,
            url,
            version,
            resolver.transitive,
        );
        let state = resolver.state();
        let noted = resolver.with(state.note(version));
        if let FindingView::Known(dependencies) =
            first_finding(
            noted.package(),
            version,
            resolver.transitive,
        ) {
            assert(dependencies.len() == 2);
            assert(resolver.conclude(range, effects, DecisionView::Available(version)) == noted.settle(
                version,
                effects + selecting(resolver, version, range),
                DependenciesView::Available(dependencies),
            ));
        }
    }
}

/// Dependencies that cannot be had rule out the version: the reason is kept under the number that
/// the solver is told, and the state waits.
pub proof fn law_missing_dependencies_rule_out_a_version(
    resolver: ResolverView,
    version: VersionParts,
    effects: Seq<EffectView>,
    reason: VersionReason,
)
    requires
        resolver.current is Some,
    ensures
        ({
            let state = resolver.state();
            let outcome = resolver.settle(version, effects, DependenciesView::Unavailable(reason));
            &&& outcome.0 == (ResolverView {
                reasons: resolver.reasons.push(Reason::Version(reason)),
                current: None,
                waiting: resolver.waiting.push(
                    told_more(
                        state,
                        Told::UnavailableVersion {
                            package: state.next,
                            version,
                            reason: resolver.reasons.len() as usize,
                        },
                    ),
                ),
                phase: PhaseView::Ready,
                ..resolver
            })
            &&& outcome.1.effects == effects
            &&& outcome.1.outcome == Ok::<QueryView, ErrorView>(QueryView::Proceed)
        }),
{
}

/// A package that depends on itself ends the resolution with an error that names it and its
/// version: the same package, extra, marker and URL included. It is the only thing that settling
/// dependencies fails on.
pub proof fn law_a_package_cannot_depend_on_itself(
    resolver: ResolverView,
    version: VersionParts,
    effects: Seq<EffectView>,
    dependencies: Seq<DependencyView>,
)
    requires
        resolver.current is Some,
    ensures
        ({
            let outcome = resolver.settle(
                version,
                effects,
                DependenciesView::Available(dependencies),
            );
            let itself = exists|i: int|
                0 <= i < dependencies.len() && (#[trigger] dependencies[i]).package
                    == resolver.package();
            &&& itself ==> fails(
                outcome,
                resolver,
                effects,
                ErrorView::SelfDependency { package: resolver.package(), version },
            )
            &&& !itself ==> outcome.0.phase is Ready && outcome.1.effects == effects
                && outcome.1.outcome == Ok::<QueryView, ErrorView>(QueryView::Proceed)
        }),
{
}

/// Whether the numbered dependencies are the others, in order: each on its own package in the
/// table, in its own range.
pub open spec fn are_numbered(
    numbers: Seq<(u64, Seq<Segment>)>,
    dependencies: Seq<DependencyView>,
    table: Seq<PackageView>,
) -> bool {
    &&& numbers.len() == dependencies.len()
    &&& forall|i: int|
        0 <= i < numbers.len() ==> (#[trigger] numbers[i]).0 < table.len()
            && table[numbers[i].0 as int] == dependencies[i].package && numbers[i].1
            == dependencies[i].range
}

/// Numbers that packages have in a table are those of the packages.
proof fn lemma_are_numbered(dependencies: Seq<DependencyView>, table: Seq<PackageView>)
    requires
        entered(table, dependencies),
        table.len() <= u64::MAX,
    ensures
        are_numbered(numbered(table, dependencies), dependencies, table),
{
    let numbers = numbered(table, dependencies);
    assert forall|i: int| 0 <= i < numbers.len() implies (#[trigger] numbers[i]).0 < table.len()
        && table[numbers[i].0 as int] == dependencies[i].package && numbers[i].1
        == dependencies[i].range by {
        assert(table.contains(dependencies[i].package));
        assert(table[table.index_of(dependencies[i].package)] == dependencies[i].package);
    }
}

/// Settling dependencies leaves a state for each fork of them, in order, and no state at hand. Each
/// is the state at hand, whose solver was told that the package at the version has the dependencies
/// of the fork, and nothing else. What waited before waits still, the dependencies are listed, and
/// nothing else changes but that their packages have numbers.
pub proof fn law_dependencies_are_told(
    resolver: ResolverView,
    version: VersionParts,
    effects: Seq<EffectView>,
    dependencies: Seq<DependencyView>,
)
    requires
        resolver.current is Some,
        resolver.table.no_duplicates(),
        rooted(resolver.table),
        all_named(dependencies),
        !depends_on(dependencies, resolver.package()),
        resolver.settle(
            version,
            effects,
            DependenciesView::Available(dependencies),
        ).0.table.len() <= u64::MAX,
    ensures
        ({
            let after = resolver.settle(
                version,
                effects,
                DependenciesView::Available(dependencies),
            ).0;
            let forks = forked(dependencies, resolver.universal);
            let n = resolver.waiting.len();
            &&& after == (ResolverView {
                table: after.table,
                current: None,
                waiting: after.waiting,
                listed: resolver.listed.push(
                    Listing { package: resolver.package(), version, dependencies },
                ),
                phase: PhaseView::Ready,
                ..resolver
            })
            &&& resolver.table.is_prefix_of(after.table)
            &&& resolver.waiting.is_prefix_of(after.waiting)
            &&& after.waiting.len() == n + forks.len()
            &&& forall|i: int|
                0 <= i < forks.len() ==> is_fork_of(
                    resolver.state(),
                    #[trigger] after.waiting[n + i],
                    version,
                    forks[i],
                    after.table,
                )
        }),
{
    let outcome = resolver.settle(version, effects, DependenciesView::Available(dependencies));
    let after = outcome.0;
    let forks = forked(dependencies, resolver.universal);
    let state = resolver.state();
    let n = resolver.waiting.len();
    assert forall|i: int| 0 <= i < forks.len() implies all_named(#[trigger] forks[i]) by {
        lemma_fork_members(dependencies, resolver.universal, forks[i], i);
    }
    lemma_forks(state, version, resolver.table, forks);
    assert forall|i: int| 0 <= i < forks.len() implies is_fork_of(
        state,
        #[trigger] after.waiting[n + i],
        version,
        forks[i],
        after.table,
    ) by {
        let states = fork_states(state, version, resolver.table, forks);
        assert(after.waiting[n + i] == states[i]);
        assert(entered(after.table, forks[i]));
        lemma_are_numbered(forks[i], after.table);
        let numbers = numbered(after.table, forks[i]);
        assert(after.waiting[n + i] == told_more(
            state,
            Told::Version { package: state.next, version, dependencies: numbers },
        ));
    }
}

/// Whether the fork is the state, whose solver was told that the next package at the version has
/// the dependencies.
pub open spec fn is_fork_of(
    state: SolveView,
    fork: SolveView,
    version: VersionParts,
    dependencies: Seq<DependencyView>,
    table: Seq<PackageView>,
) -> bool {
    exists|numbers: Seq<(u64, Seq<Segment>)>| #[trigger]
        are_numbered(numbers, dependencies, table) && fork == told_more(
            state,
            Told::Version { package: state.next, version, dependencies: numbers },
        )
}

/// Whether the package at `p` of the table is one whose metadata is prefetched: a package of a
/// registry that carries no extra, whatever its marker.
pub open spec fn is_prefetched(table: Seq<PackageView>, p: u64) -> bool {
    table[p as int] matches PackageView::Package { extra, url, .. } && extra is None && url is None
}

/// The effect of prefetching a package in a range.
pub open spec fn prefetching(table: Seq<PackageView>, entry: (u64, Seq<Segment>)) -> EffectView {
    EffectView::Send(RequestView::Prefetch(table[entry.0 as int].name()->0, entry.1))
}

/// Every package of a registry without an extra is prefetched, in its range and in order, and
/// nothing else is: prefetching two lists of packages is prefetching the first and then the second,
/// and a single package is prefetched exactly if it is such a one.
pub proof fn law_candidates_are_prefetched(
    first: Seq<(u64, Seq<Segment>)>,
    second: Seq<(u64, Seq<Segment>)>,
    entry: (u64, Seq<Segment>),
    table: Seq<PackageView>,
)
    ensures
        sends(prefetches(first + second, table)) == sends(prefetches(first, table)) + sends(
            prefetches(second, table),
        ),
        is_prefetched(table, entry.0) ==> sends(prefetches(seq![entry], table)) == seq![
            prefetching(table, entry),
        ],
        !is_prefetched(table, entry.0) ==> sends(prefetches(seq![entry], table)) == Seq::<
            EffectView,
        >::empty(),
        sends(prefetches(Seq::empty(), table)) == Seq::<EffectView>::empty(),
    decreases second.len(),
{
    let one = seq![entry];
    assert(one.drop_last() =~= Seq::empty());
    assert(one.last() == entry);
    reveal_with_fuel(prefetches, 2);
    assert(sends(prefetches(Seq::empty(), table)) =~= Seq::empty());
    if is_prefetched(table, entry.0) {
        assert(sends(prefetches(one, table)) =~= seq![prefetching(table, entry)]);
    } else {
        assert(sends(prefetches(one, table)) =~= Seq::empty());
    }
    if second.len() == 0 {
        assert(first + second =~= first);
        assert(sends(prefetches(first, table)) + sends(prefetches(second, table)) =~= sends(
            prefetches(first, table),
        ));
    } else {
        let before = second.drop_last();
        law_candidates_are_prefetched(first, before, entry, table);
        assert((first + second).drop_last() =~= first + before);
        assert((first + second).last() == second.last());
        lemma_prefetched_more(first + before, second.last(), table);
        lemma_prefetched_more(before, second.last(), table);
        assert((first + before).push(second.last()) =~= first + second);
        assert(before.push(second.last()) =~= second);
        assert(sends(prefetches(first + second, table)) =~= sends(prefetches(first, table)) + sends(
            prefetches(second, table),
        ));
    }
}

/// One more package adds its effect, if it has one.
proof fn lemma_prefetched_more(
    packages: Seq<(u64, Seq<Segment>)>,
    entry: (u64, Seq<Segment>),
    table: Seq<PackageView>,
)
    ensures
        sends(prefetches(packages.push(entry), table)) == if is_prefetched(table, entry.0) {
            sends(prefetches(packages, table)).push(prefetching(table, entry))
        } else {
            sends(prefetches(packages, table))
        },
{
    assert(packages.push(entry).drop_last() =~= packages);
    if is_prefetched(table, entry.0) {
        assert(sends(prefetches(packages.push(entry), table)) =~= sends(
            prefetches(packages, table),
        ).push(prefetching(table, entry)));
    }
}

/// The resolver goes on with the state at hand, or else with the one that came last among those that
/// wait. Unit propagation runs from its next package on; if it fails, so does the resolution, and
/// otherwise the ranks are asked for. Candidates are prefetched exactly if the dependencies of
/// dependencies are wanted. If no state is left, the resolution is complete.
pub proof fn law_the_next_state_is_propagated(resolver: ResolverView)
    requires
        resolver.phase is Ready,
    ensures
        ({
            let outcome = resolver.resume();
            let waits = resolver.current is None && resolver.waiting.len() > 0;
            let state = if waits {
                resolver.waiting.last()
            } else {
                resolver.state()
            };
            let rest = ResolverView {
                waiting: if waits {
                    resolver.waiting.drop_last()
                } else {
                    resolver.waiting
                },
                ..resolver
            };
            let propagated = told_more(state, Told::Propagate { package: state.next });
            if resolver.current is None && !waits {
                &&& outcome.0 == (ResolverView { phase: PhaseView::Finished, ..resolver })
                &&& outcome.1.effects == Seq::<EffectView>::empty()
                &&& outcome.1.outcome == Ok::<QueryView, ErrorView>(QueryView::Done)
            } else if propagates(state.told, state.next) {
                asks(
                    outcome,
                    rest,
                    propagated,
                    PhaseView::Ranking,
                    if resolver.transitive {
                        sends(prefetches(candidates(propagated.told), resolver.table))
                    } else {
                        Seq::empty()
                    },
                    QueryView::Rank,
                )
            } else {
                fails(
                    outcome,
                    rest,
                    Seq::empty(),
                    ErrorView::NoSolution { told: state.told, package: state.next },
                )
            }
        }),
{
}

/// If every package is decided on, the state is solved: it joins those that are, and what it
/// resolves joins what was resolved. Nothing else changes.
pub proof fn law_a_solved_state_is_kept(resolver: ResolverView, ranks: Ranks)
    requires
        resolver.current is Some,
        picked(resolver.state().told, ranks.ranks@) is None,
    ensures
        ({
            let outcome = resolver.rank(ranks.ranks@);
            let solved = told_more(resolver.state(), Told::Pick { ranks: ranks.ranks@ });
            &&& outcome.0 == (ResolverView {
                current: None,
                finished: resolver.finished.push(solved),
                resolution: resolver.resolution.union(solved.resolution(resolver.table)),
                phase: PhaseView::Ready,
                ..resolver
            })
            &&& outcome.1.effects == Seq::<EffectView>::empty()
            &&& outcome.1.outcome == Ok::<QueryView, ErrorView>(QueryView::Proceed)
        }),
{
}

/// The resolver with the package that was picked as the next one of its state.
pub open spec fn picking(
    resolver: ResolverView,
    ranks: Seq<Option<(u32, usize)>>,
    package: u64,
) -> ResolverView {
    resolver.with(
        SolveView {
            told: resolver.state().told.push(Told::Pick { ranks }),
            next: package,
            ..resolver.state()
        },
    )
}

/// The package that is picked is tried, whatever it is. Of a named one the metadata at its URL is
/// asked for if it has one, and its versions otherwise. The root is available at its version, and
/// Python at that which is installed or that which the resolution is for, if the range holds it.
pub proof fn law_the_picked_package_is_tried(
    resolver: ResolverView,
    ranks: Ranks,
    package: u64,
    range: Seq<Segment>,
)
    requires
        resolver.current is Some,
        picked(resolver.state().told, ranks.ranks@) == Some((package, range)),
    ensures
        ({
            let outcome = resolver.rank(ranks.ranks@);
            let next = picking(resolver, ranks.ranks@, package);
            let tried = seq![EffectView::Tried(resolver.table[package as int])];
            let python = |version: VersionParts|
                if segments_have(range, version.key()) {
                    DecisionView::Available(version)
                } else {
                    DecisionView::Nothing
                };
            match resolver.table[package as int] {
                PackageView::Root(_) => outcome == next.conclude(
                    range,
                    tried,
                    DecisionView::Available(min_version_parts()),
                ),
                PackageView::Python(PubGrubPython::Installed) => outcome == next.conclude(
                    range,
                    tried,
                    python(resolver.installed),
                ),
                PackageView::Python(PubGrubPython::Target) => outcome == next.conclude(
                    range,
                    tried,
                    python(resolver.target),
                ),
                PackageView::Extra { name, url, .. } => looks_up(
                    outcome,
                    next,
                    range,
                    tried,
                    name,
                    url,
                ),
                PackageView::Package { name, url, .. } => looks_up(
                    outcome,
                    next,
                    range,
                    tried,
                    name,
                    url,
                ),
            }
        }),
{
}

/// Whether the resolver asks for the metadata at the URL, or for the versions of the name if there
/// is none.
pub open spec fn looks_up(
    outcome: (ResolverView, StepView),
    next: ResolverView,
    range: Seq<Segment>,
    effects: Seq<EffectView>,
    name: Seq<char>,
    url: Option<Seq<char>>,
) -> bool {
    match url {
        Some(url) => asks(
            outcome,
            next,
            next.state(),
            PhaseView::Metadata { range },
            effects,
            QueryView::Metadata { name, url },
        ),
        None => asks(
            outcome,
            next,
            next.state(),
            PhaseView::Versions { range },
            effects,
            QueryView::Versions { name },
        ),
    }
}

/// Metadata of a version in the range that supports the target makes it available; metadata of one
/// that does not makes it depend on Python, and any other leaves no version. Without metadata the
/// package is marked as unavailable first, with its name, and there is no version. If nobody fetches
/// it, the resolution fails.
pub proof fn law_metadata_is_taken(
    resolver: ResolverView,
    range: Seq<Segment>,
    metadata: Metadata,
    text: String,
)
    requires
        resolver.current is Some,
    ensures
        ({
            let found = resolver.take_metadata(range, Some(MetadataResponse::Found(metadata)));
            let holds = segments_have(range, metadata.version@.key());
            let name = resolver.package().name()->0;
            &&& holds && asks_for(metadata, resolver.target) ==> found == resolver.conclude(
                range,
                Seq::empty(),
                DecisionView::Available(metadata.version@),
            )
            &&& holds && !asks_for(metadata, resolver.target) ==> exists|
                reason: UnavailableVersion,
            |
                python_reason(reason) == metadata.requires_python && found
                    == #[trigger] resolver.conclude(
                    range,
                    Seq::empty(),
                    DecisionView::Unavailable(metadata.version@, reason),
                )
            &&& !holds ==> found == resolver.conclude(range, Seq::empty(), DecisionView::Nothing)
            &&& resolver.take_metadata(range, Some(MetadataResponse::Offline)) == resolver.conclude(
                range,
                seq![EffectView::MarkUnavailable(name, UnavailablePackage::Offline)],
                DecisionView::Nothing,
            )
            &&& resolver.take_metadata(range, Some(MetadataResponse::InvalidMetadata(text)))
                == resolver.conclude(
                range,
                seq![
                    EffectView::MarkUnavailable(name, UnavailablePackage::InvalidMetadata(text)),
                ],
                DecisionView::Nothing,
            )
            &&& resolver.take_metadata(range, Some(MetadataResponse::InconsistentMetadata(text)))
                == resolver.conclude(
                range,
                seq![
                    EffectView::MarkUnavailable(name, UnavailablePackage::InvalidMetadata(text)),
                ],
                DecisionView::Nothing,
            )
            &&& resolver.take_metadata(range, Some(MetadataResponse::InvalidStructure(text)))
                == resolver.conclude(
                range,
                seq![
                    EffectView::MarkUnavailable(name, UnavailablePackage::InvalidStructure(text)),
                ],
                DecisionView::Nothing,
            )
            &&& fails(
                resolver.take_metadata(range, None),
                resolver,
                Seq::empty(),
                ErrorView::Unregistered,
            )
        }),
{
    law_metadata_gives_its_version(metadata, range, resolver.target);
    let holds = segments_have(range, metadata.version@.key());
    if holds && !asks_for(metadata, resolver.target) {
        let choice = metadata_choice(MetadataResponse::Found(metadata), range, resolver.target);
        if let Some(ResolverVersion::Unavailable(_, reason)) = choice {
            assert(python_reason(reason) == metadata.requires_python);
            assert(resolver.take_metadata(range, Some(MetadataResponse::Found(metadata)))
                == resolver.conclude(
                range,
                Seq::empty(),
                DecisionView::Unavailable(metadata.version@, reason),
            ));
        }
    }
}

/// Whatever the answer on the versions of a package is, the package counts as visited, and a
/// candidate of its name in the range is asked for. Without versions it is marked as unavailable,
/// with its name and for the reason why there are none. If nobody fetches them, the resolution
/// fails.
pub proof fn law_versions_are_taken(resolver: ResolverView, range: Seq<Segment>)
    requires
        resolver.current is Some,
    ensures
        ({
            let name = resolver.package().name()->0;
            let visited = ResolverView { visited: resolver.visited.insert(name), ..resolver };
            let phase = PhaseView::Candidate { range };
            let query = QueryView::Select { name, range };
            let mark = |reason: UnavailablePackage|
                seq![EffectView::MarkUnavailable(name, reason)];
            &&& asks(
                resolver.take_versions(range, Some(VersionsResponse::Found(()))),
                visited,
                resolver.state(),
                phase,
                Seq::empty(),
                query,
            )
            &&& asks(
                resolver.take_versions(range, Some(VersionsResponse::NoIndex)),
                visited,
                resolver.state(),
                phase,
                mark(UnavailablePackage::NoIndex),
                query,
            )
            &&& asks(
                resolver.take_versions(range, Some(VersionsResponse::Offline)),
                visited,
                resolver.state(),
                phase,
                mark(UnavailablePackage::Offline),
                query,
            )
            &&& asks(
                resolver.take_versions(range, Some(VersionsResponse::NotFound)),
                visited,
                resolver.state(),
                phase,
                mark(UnavailablePackage::NotFound),
                query,
            )
            &&& fails(
                resolver.take_versions(range, None),
                resolver,
                Seq::empty(),
                ErrorView::Unregistered,
            )
        }),
{
}

/// A candidate that can be used makes its version available, once it is pinned to its distribution
/// for the installation under the name of the package. Its metadata is fetched, under the
/// identifier of its distribution, if the package is none of an extra.
pub proof fn law_a_compatible_candidate_is_taken(
    resolver: ResolverView,
    range: Seq<Segment>,
    version: Version,
    id: String,
    for_installation: ResolvedDist,
    for_resolution: ResolvedDistRef,
)
    requires
        resolver.current is Some,
    ensures
        ({
            let candidate = Candidate {
                version,
                dist: CandidateDist::Compatible { id, for_installation, for_resolution },
            };
            let state = resolver.state();
            let pinned = SolveView {
                pins: state.pins.insert(
                    (resolver.package().name()->0, version@.key()),
                    for_installation,
                ),
                ..state
            };
            let effects = if resolver.package() is Package {
                seq![
                    EffectView::FetchMetadata {
                        id: id@,
                        request: metadata_request(for_resolution)@,
                    },
                ]
            } else {
                Seq::empty()
            };
            resolver.take_candidate(range, Some(candidate)) == resolver.with(pinned).conclude(
                range,
                effects,
                DecisionView::Available(version@),
            )
        }),
{
}

/// A candidate that cannot be used makes its version unavailable for the same reason, and without a
/// candidate there is no version. Nothing is pinned and nothing is fetched.
pub proof fn law_other_candidates_are_taken(
    resolver: ResolverView,
    range: Seq<Segment>,
    version: Version,
    reason: IncompatibleDist,
)
    requires
        resolver.current is Some,
    ensures
        resolver.take_candidate(
            range,
            Some(Candidate { version, dist: CandidateDist::Incompatible(reason) }),
        ) == resolver.conclude(
            range,
            Seq::empty(),
            DecisionView::Unavailable(version@, UnavailableVersion::IncompatibleDist(reason)),
        ),
        resolver.take_candidate(range, None) == resolver.conclude(
            range,
            Seq::empty(),
            DecisionView::Nothing,
        ),
{
    assert(resolver.with(resolver.state()) == resolver);
}

/// A package without a version is ruled out in the whole range: as unavailable, with the reason kept
/// under the number that the solver is told, if it is marked so, and as one without versions
/// otherwise.
pub proof fn law_a_package_without_a_version_is_ruled_out(
    resolver: ResolverView,
    range: Seq<Segment>,
    reason: UnavailablePackage,
)
    requires
        resolver.current is Some,
    ensures
        ({
            let state = resolver.state();
            &&& asks(
                resolver.take_reason(range, None),
                resolver,
                told_more(state, Told::NoVersions { package: state.next, range }),
                PhaseView::Ready,
                Seq::empty(),
                QueryView::Proceed,
            )
            &&& asks(
                resolver.take_reason(range, Some(reason)),
                ResolverView { reasons: resolver.reasons.push(Reason::Package(reason)), ..resolver },
                told_more(
                    state,
                    Told::UnavailablePackage {
                        package: state.next,
                        range,
                        reason: resolver.reasons.len() as usize,
                    },
                ),
                PhaseView::Ready,
                Seq::empty(),
                QueryView::Proceed,
            )
        }),
{
}

/// Requirements that cannot be expressed make the root unavailable, with what is wrong as the
/// reason, its first character in lowercase. Those of a package end the resolution with what is
/// wrong as the error.
pub proof fn law_odd_requirements_are_refused(
    resolver: ResolverView,
    version: VersionParts,
    text: String,
)
    requires
        resolver.current is Some,
    ensures
        text@.len() > 0 ==> resolver.take_root_requirements(version, Err(text)) == resolver.settle(
            version,
            Seq::empty(),
            DependenciesView::Unavailable(
                VersionReason::ResolverError(lowercase_of(text@[0]) + text@.skip(1)),
            ),
        ),
        text@.len() == 0 ==> resolver.take_root_requirements(version, Err(text)) == resolver.settle(
            version,
            Seq::empty(),
            DependenciesView::Unavailable(VersionReason::ResolverError(text@)),
        ),
        fails(
            resolver.take_package_requirements(version, Err(text)),
            resolver,
            Seq::empty(),
            ErrorView::Requirements(text@),
        ),
{
}

/// Requirements are taken alike for the root and for a package: each of their packages is visited in
/// turn, and the first that is refused ends the resolution.
pub proof fn law_refused_requirements_end_the_resolution(
    resolver: ResolverView,
    version: VersionParts,
    entries: Vec<Expanded>,
)
    requires
        resolver.current is Some,
        visits_error(expanded_list(entries@)) is Some,
    ensures
        fails(
            resolver.take_root_requirements(version, Ok(entries)),
            resolver,
            visits_effects(expanded_list(entries@)),
            visits_error(expanded_list(entries@))->0,
        ),
        fails(
            resolver.take_package_requirements(version, Ok(entries)),
            resolver,
            visits_effects(expanded_list(entries@)),
            visits_error(expanded_list(entries@))->0,
        ),
{
}

/// Requirements that are all allowed raise the priorities of their packages, in order and in their
/// ranges, and are then settled as the dependencies, each as it is, followed by the dependency of a
/// package with a marker on the same one without, which has no priority. The root and packages are
/// treated alike.
pub proof fn law_requirements_are_taken(
    resolver: ResolverView,
    version: VersionParts,
    entries: Vec<Expanded>,
)
    requires
        resolver.current is Some,
        resolver.state().next < resolver.table.len(),
        resolver.table.no_duplicates(),
        rooted(resolver.table),
        forall|i: int|
            0 <= i < entries@.len() ==> (
            #[trigger] entries@[i]).dependency.package@.name() is Some,
        visits_error(expanded_list(entries@)) is None,
        with_dependencies(
            resolver.table,
            expanded_dependencies(expanded_list(entries@)),
        ).len() <= u64::MAX,
    ensures
        takes(resolver, version, entries@, resolver.take_root_requirements(version, Ok(entries))),
        takes(resolver, version, entries@, resolver.take_package_requirements(version, Ok(entries))),
{
    let list = expanded_list(entries@);
    let dependencies = expanded_dependencies(list);
    assert forall|i: int| 0 <= i < dependencies.len() implies dependencies[i]
        == entries@[i].dependency@ && (#[trigger] dependencies[i]).package.name() is Some by {
        assert(list[i] == entries@[i]@);
        assert(entries@[i].dependency.package@.name() is Some);
    }
    lemma_with_dependencies(resolver.table, dependencies);
    let table = with_dependencies(resolver.table, dependencies);
    lemma_are_numbered(dependencies, table);
    let numbers = numbered(table, dependencies);
    let state = resolver.state();
    let outcome = resolver.take_root_requirements(version, Ok(entries));
    assert(outcome == resolver.take_package_requirements(version, Ok(entries)));
    assert(outcome == ResolverView { table, ..resolver }.with(
        SolveView { priorities: state.priorities + numbers, ..state },
    ).settle(
        version,
        visits_effects(list),
        DependenciesView::Available(dependencies + unmarked(resolver.package(), version)),
    ));
    assert(is_taken(resolver, version, entries@, outcome, table, numbers, dependencies));
}

/// Whether the requirements are taken as priorities and dependencies.
pub open spec fn takes(
    resolver: ResolverView,
    version: VersionParts,
    entries: Seq<Expanded>,
    outcome: (ResolverView, StepView),
) -> bool {
    exists|
        table: Seq<PackageView>,
        numbers: Seq<(u64, Seq<Segment>)>,
        dependencies: Seq<DependencyView>,
    | #[trigger]
        is_taken(resolver, version, entries, outcome, table, numbers, dependencies)
}

/// Whether the requirements are taken with the given numbers and as the given dependencies.
pub open spec fn is_taken(
    resolver: ResolverView,
    version: VersionParts,
    entries: Seq<Expanded>,
    outcome: (ResolverView, StepView),
    table: Seq<PackageView>,
    numbers: Seq<(u64, Seq<Segment>)>,
    dependencies: Seq<DependencyView>,
) -> bool {
    &&& resolver.table.is_prefix_of(table)
    &&& dependencies.len() == entries.len()
    &&& forall|i: int|
        0 <= i < entries.len() ==> #[trigger] dependencies[i] == entries[i].dependency@
    &&& are_numbered(numbers, dependencies, table)
    &&& outcome == ResolverView { table, ..resolver }.with(
        SolveView {
            priorities: resolver.state().priorities + numbers,
            ..resolver.state()
        },
    ).settle(
        version,
        visits_effects(expanded_list(entries)),
        DependenciesView::Available(dependencies + unmarked(resolver.package(), version)),
    )
}

/// When only direct dependencies are wanted, a package whose metadata is there has none, and the
/// resolution fails if nobody fetches it.
pub proof fn law_direct_packages_have_no_dependencies(
    resolver: ResolverView,
    version: VersionParts,
)
    requires
        resolver.current is Some,
    ensures
        resolver.take_direct_metadata(version, true) == resolver.settle(
            version,
            Seq::empty(),
            DependenciesView::Available(Seq::empty()),
        ),
        fails(
            resolver.take_direct_metadata(version, false),
            resolver,
            Seq::empty(),
            ErrorView::Unregistered,
        ),
{
}

/// The metadata of a package is asked for, with its name, version and URL, unless the package is
/// unavailable and not installed either: then the resolution fails with an error that names it.
pub proof fn law_metadata_of_available_packages_is_asked_for(
    resolver: ResolverView,
    version: VersionParts,
    range: Seq<Segment>,
    unavailable: bool,
    installed: bool,
)
    requires
        resolver.current is Some,
        resolver.package() is Package,
    ensures
        resolver.package() matches PackageView::Package { name, url, .. } ==> {
            let outcome = resolver.take_availability(version, range, unavailable, installed);
            &&& !unavailable || installed ==> asks(
                outcome,
                resolver,
                resolver.state(),
                PhaseView::PackageMetadata { version, range },
                Seq::empty(),
                QueryView::PackageMetadata { name, version, url },
            )
            &&& unavailable && !installed ==> fails(
                outcome,
                resolver,
                Seq::empty(),
                ErrorView::Failure("The package is unavailable: "@ + name),
            )
        },
{
}

/// Once there is metadata, the requirements of the package are asked for, with its name, extra,
/// version and URL. Metadata that is missing or invalid is marked, and makes the version
/// unavailable for the same reason. If nobody fetches it, the resolution fails.
pub proof fn law_package_metadata_is_taken(
    resolver: ResolverView,
    version: VersionParts,
    range: Seq<Segment>,
    text: String,
)
    requires
        resolver.current is Some,
        resolver.package() is Package,
    ensures
        resolver.package() matches PackageView::Package { name, extra, url, .. } ==> {
            let taken = |response: MetadataResponse<()>|
                resolver.take_package_metadata(version, range, Some(response));
            let ruled_out = |incomplete: IncompletePackage, reason: VersionReason|
                resolver.settle(
                    version,
                    seq![EffectView::MarkIncomplete(name, version, incomplete)],
                    DependenciesView::Unavailable(reason),
                );
            &&& asks(
                taken(MetadataResponse::Found(())),
                resolver,
                resolver.state(),
                PhaseView::PackageRequirements { version, range },
                Seq::empty(),
                QueryView::PackageRequirements { name, extra, version, url },
            )
            &&& taken(MetadataResponse::Offline) == ruled_out(
                IncompletePackage::Offline,
                VersionReason::Offline,
            )
            &&& taken(MetadataResponse::InvalidMetadata(text)) == ruled_out(
                IncompletePackage::InvalidMetadata(text),
                VersionReason::InvalidMetadata,
            )
            &&& taken(MetadataResponse::InconsistentMetadata(text)) == ruled_out(
                IncompletePackage::InconsistentMetadata(text),
                VersionReason::InconsistentMetadata,
            )
            &&& taken(MetadataResponse::InvalidStructure(text)) == ruled_out(
                IncompletePackage::InvalidStructure(text),
                VersionReason::InvalidStructure,
            )
            &&& fails(
                resolver.take_package_metadata(version, range, None),
                resolver,
                Seq::empty(),
                ErrorView::Unregistered,
            )
        },
{
}

/// Every answer is taken as what was asked for, with the range and the version of the question.
pub proof fn law_answers_are_taken(resolver: ResolverView, answer: Answer)
    requires
        resolver.expects(answer),
    ensures
        match (resolver.phase, answer) {
            (PhaseView::Ready, Answer::Proceed) => resolver.advance(answer) == resolver.resume(),
            (PhaseView::Ranking, Answer::Ranks(ranks)) => resolver.advance(answer)
                == resolver.rank(ranks.ranks@),
            (PhaseView::Metadata { range }, Answer::Metadata(response)) => resolver.advance(answer)
                == resolver.take_metadata(range, response),
            (PhaseView::Versions { range }, Answer::Versions(response)) => resolver.advance(answer)
                == resolver.take_versions(range, response),
            (PhaseView::Candidate { range }, Answer::Candidate(candidate)) => resolver.advance(
                answer,
            ) == resolver.take_candidate(range, candidate),
            (PhaseView::Reason { range }, Answer::Reason(reason)) => resolver.advance(answer)
                == resolver.take_reason(range, reason),
            (
                PhaseView::RootRequirements { version, .. },
                Answer::RootRequirements(requirements),
            ) => resolver.advance(answer) == resolver.take_root_requirements(version, requirements),
            (
                PhaseView::DirectMetadata { version, .. },
                Answer::DirectMetadata(registered),
            ) => resolver.advance(answer) == resolver.take_direct_metadata(version, registered),
            (
                PhaseView::Availability { version, range },
                Answer::Availability { unavailable, installed },
            ) => resolver.advance(answer) == resolver.take_availability(
                version,
                range,
                unavailable,
                installed,
            ),
            (
                PhaseView::PackageMetadata { version, range },
                Answer::PackageMetadata(response),
            ) => resolver.advance(answer) == resolver.take_package_metadata(
                version,
                range,
                response,
            ),
            (
                PhaseView::PackageRequirements { version, .. },
                Answer::PackageRequirements(requirements),
            ) => resolver.advance(answer) == resolver.take_package_requirements(
                version,
                requirements,
            ),
            _ => false,
        },
{
}

/// An answer to the question that was asked is always accepted, as far as its kind decides.
pub proof fn law_answers_to_the_question_are_accepted(
    resolver: ResolverView,
    ranks: Ranks,
    versions: Option<VersionsResponse<()>>,
    reason: Option<UnavailablePackage>,
    response: Option<MetadataResponse<()>>,
    text: String,
    registered: bool,
    unavailable: bool,
    installed: bool,
)
    ensures
        resolver.phase is Ready ==> resolver.expects(Answer::Proceed),
        resolver.phase is Ranking ==> resolver.expects(Answer::Ranks(ranks)),
        resolver.phase is Metadata ==> resolver.expects(Answer::Metadata(None)) && resolver.expects(
            Answer::Metadata(Some(MetadataResponse::Offline)),
        ),
        resolver.phase is Versions ==> resolver.expects(Answer::Versions(versions)),
        resolver.phase is Candidate ==> resolver.expects(Answer::Candidate(None)),
        resolver.phase is Reason ==> resolver.expects(Answer::Reason(reason)),
        resolver.phase is RootRequirements ==> resolver.expects(
            Answer::RootRequirements(Err(text)),
        ),
        resolver.phase is DirectMetadata ==> resolver.expects(Answer::DirectMetadata(registered)),
        resolver.phase is Availability ==> resolver.expects(
            Answer::Availability { unavailable, installed },
        ),
        resolver.phase is PackageMetadata ==> resolver.expects(Answer::PackageMetadata(response)),
        resolver.phase is PackageRequirements ==> resolver.expects(
            Answer::PackageRequirements(Err(text)),
        ),
{
}

/// Requirements on named packages are accepted, whatever their extras, markers and ranges, if the
/// distributions of those that are given by a URL and allowed are known.
pub proof fn law_requirements_on_named_packages_are_accepted(
    resolver: ResolverView,
    entries: Vec<Expanded>,
)
    requires
        forall|i: int|
            0 <= i < entries@.len() ==> {
                &&& (#[trigger] entries@[i]).dependency.package@ is Package
                    || entries@[i].dependency.package@ is Extra
                &&& entries@[i].dist is Some || !entries@[i].allowed || !(
                entries@[i].dependency.package@ matches PackageView::Package { url: Some(_), .. })
            },
    ensures
        resolver.phase is RootRequirements ==> resolver.expects(
            Answer::RootRequirements(Ok(entries)),
        ),
        resolver.phase is PackageRequirements ==> resolver.expects(
            Answer::PackageRequirements(Ok(entries)),
        ),
{
    let list = expanded_list(entries@);
    assert forall|i: int| 0 <= i < list.len() implies (#[trigger] list[i]).wf() by {
        assert(list[i] == entries@[i]@);
        assert(entries@[i].dependency.package@ is Package || entries@[i].dependency.package@
            is Extra);
    }
}

} // verus!
