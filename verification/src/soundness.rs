use vstd::prelude::*;

use crate::availability::{UnavailableVersion, VersionReason};
use crate::dependencies::{
    all_expanded, expanded_dependencies, expanded_list, first_finding, forked, incomplete_reason,
    unmarked, visits_effects, visits_error, ExpandedView, FindingView,
};
use crate::forks::{all_named, DependencyView};
use crate::package::{PackageView, PubGrubPython};
use crate::python::{all_segments, first_without_range, specifier_parts};
use crate::range::Segment;
use crate::selection::{
    candidate_choice, candidate_request, first_choice, metadata_choice, metadata_reason,
    python_reason, Candidate, ChoiceView,
};
use crate::solver::{decided, decides, includes, picked, respected, respects, solution, Told};
use crate::state::{
    initial_view, number_of, numbered, with_dependencies, with_package, with_pythons, SolveView,
};
use crate::step::EffectView;
use crate::support::{
    carries, entered, excludes, is_backed, is_listed, is_pinned, lemma_backed_stays,
    lemma_fork_members, lemma_forks, lemma_forks_stay, lemma_has_fork_stays, lemma_has_told,
    lemma_others_stay, lemma_some_fork, lemma_state_sound_stays, lemma_state_told, lemma_told_of,
    lemma_told_stays, lemma_with_dependencies, lemma_with_package, loses_nothing, rooted,
    solved_sound, state_sound, told_carries, was_added, was_excluded, was_limited, well_listed,
    Ledger,
};
use crate::text::uncapitalized;
use crate::transition::{
    decision, depends_on, fork_states, marks, Answer, DecisionView, DependenciesView, Listing,
    PhaseView, ResolverView,
};
use crate::version::{VersionKey, VersionParts};

verus! {

/// A resolver that goes on with the state at hand stays sound.
proof fn lemma_moved(
    before: ResolverView,
    pending: Option<(u64, VersionKey)>,
    after: ResolverView,
)
    requires
        before.states_sound(pending),
        before.keeps_everything(),
        before.current is Some,
        after.current is Some,
        before.state().told.is_prefix_of(after.state().told),
        after.waiting == before.waiting,
        after.finished == before.finished,
        after.listed == before.listed,
        after.transitive == before.transitive,
        after.ledger().extends(before.ledger()),
        rooted(after.table),
        state_sound(after.ledger(), after.state(), after.pending()),
        after.phase_sound(),
    ensures
        after.sound(),
{
    lemma_others_stay(before, after, pending);
    lemma_has_told(after, before.state().told);
    assert forall|i: int| 0 <= i < before.waiting.len() implies after.has_told(
        (#[trigger] before.waiting[i]).told,
    ) by {
        lemma_has_told(after, before.waiting[i].told);
        assert(after.waiting[i] == before.waiting[i]);
    }
    assert forall|i: int| 0 <= i < before.finished.len() implies after.has_told(
        (#[trigger] before.finished[i]).told,
    ) by {
        lemma_has_told(after, before.finished[i].told);
        assert(after.finished[i] == before.finished[i]);
    }
    lemma_forks_stay(before, after);
}

/// A resolver that fails stays sound.
proof fn lemma_failed(
    before: ResolverView,
    pending: Option<(u64, VersionKey)>,
    after: ResolverView,
)
    requires
        before.states_sound(pending),
        after.phase is Failed,
        after.current is None,
        after.waiting == before.waiting,
        after.finished == before.finished,
        after.transitive == before.transitive,
        after.ledger() == before.ledger(),
    ensures
        after.sound(),
{
}

/// Settling the dependencies of the package that is next keeps everything sound.
proof fn lemma_settle(
    before: ResolverView,
    version: VersionParts,
    effects: Seq<EffectView>,
    dependencies: DependenciesView,
)
    requires
        before.current is Some,
        before.state().next < before.table.len(),
        before.states_sound(Some((before.state().next, version.key()))),
        before.keeps_everything(),
        before.admits(version),
        dependencies matches DependenciesView::Available(list) ==> well_listed(
            (Listing { package: before.package(), version, dependencies: list }),
            before.transitive,
        ),
    ensures
        before.settle(version, effects, dependencies).0.sound(),
{
    let state = before.state();
    let pending = Some((state.next, version.key()));
    let after = before.settle(version, effects, dependencies).0;
    match dependencies {
        DependenciesView::Unavailable(reason) => {
            let step = Told::UnavailableVersion {
                package: state.next,
                version,
                reason: before.reasons.len() as usize,
            };
            lemma_state_told(before.ledger(), state, pending, step, None);
            let last = before.waiting.len() as int;
            assert(after.waiting[last] == state.tell(step));
            assert(after.ledger() == before.ledger());
            assert forall|i: int| 0 <= i < after.waiting.len() implies state_sound(
                after.ledger(),
                #[trigger] after.waiting[i],
                None,
            ) by {
                if i < last {
                    assert(after.waiting[i] == before.waiting[i]);
                }
            }
            lemma_pushed(before, after, 1);
            lemma_forks_stay(before, after);
        },
        DependenciesView::Available(list) => {
            if depends_on(list, before.package()) {
                lemma_failed(before, pending, after);
            } else {
                lemma_split(before, version, effects, list);
            }
        },
    }
}

/// If states that go on from the one at hand join those that wait, nothing is lost.
proof fn lemma_pushed(before: ResolverView, after: ResolverView, n: nat)
    requires
        before.current is Some,
        n > 0,
        after.waiting.len() == before.waiting.len() + n,
        before.waiting.is_prefix_of(after.waiting),
        before.state().told.is_prefix_of(after.waiting[before.waiting.len() as int].told),
        after.finished == before.finished,
    ensures
        loses_nothing(before, after),
{
    lemma_has_told(after, before.state().told);
    assert(after.has_told(before.state().told));
    assert forall|i: int| 0 <= i < before.waiting.len() implies after.has_told(
        (#[trigger] before.waiting[i]).told,
    ) by {
        lemma_has_told(after, before.waiting[i].told);
        assert(after.waiting[i] == before.waiting[i]);
    }
    assert forall|i: int| 0 <= i < before.finished.len() implies after.has_told(
        (#[trigger] before.finished[i]).told,
    ) by {
        lemma_has_told(after, before.finished[i].told);
        assert(after.finished[i] == before.finished[i]);
    }
}

/// The state of a fork is sound, and was told the fork.
proof fn lemma_fork_sound(
    ledger: Ledger,
    state: SolveView,
    listing: Listing,
    a: int,
    f: int,
    fork: SolveView,
)
    requires
        state_sound(ledger, state, Some((state.next, listing.version.key()))),
        state.next < ledger.table.len(),
        ledger.table[state.next as int] == listing.package,
        is_pinned(listing.package, listing.version.key(), state.pins),
        0 <= a < ledger.listed.len(),
        ledger.listed[a] == listing,
        0 <= f < forked(listing.dependencies, ledger.universal).len(),
        entered(ledger.table, forked(listing.dependencies, ledger.universal)[f]),
        fork == state.tell(
            Told::Version {
                package: state.next,
                version: listing.version,
                dependencies: numbered(
                    ledger.table,
                    forked(listing.dependencies, ledger.universal)[f],
                ),
            },
        ),
    ensures
        state_sound(ledger, fork, None),
        told_carries(ledger, fork.told, listing, f),
{
    let k = state.told.len() as int;
    let step = fork.told[k];
    assert(carries(ledger, step, ledger.listed[a], f));
    assert(is_listed(ledger, step));
    lemma_state_told(
        ledger,
        state,
        Some((state.next, listing.version.key())),
        step,
        None,
    );
    assert(carries(ledger, fork.told[k], listing, f));
}

/// Forking keeps everything sound.
#[verifier::spinoff_prover]
proof fn lemma_split(
    before: ResolverView,
    version: VersionParts,
    effects: Seq<EffectView>,
    list: Seq<DependencyView>,
)
    requires
        before.current is Some,
        before.state().next < before.table.len(),
        before.states_sound(Some((before.state().next, version.key()))),
        before.keeps_everything(),
        before.admits(version),
        well_listed(
            (Listing { package: before.package(), version, dependencies: list }),
            before.transitive,
        ),
        !depends_on(list, before.package()),
    ensures
        before.settle(version, effects, DependenciesView::Available(list)).0.sound(),
{
    let state = before.state();
    let pending = Some((state.next, version.key()));
    let after = before.settle(version, effects, DependenciesView::Available(list)).0;
    let forks = forked(list, before.universal);
    let listing = Listing { package: before.package(), version, dependencies: list };
    let n = before.listed.len() as int;
    assert forall|i: int| 0 <= i < forks.len() implies all_named(#[trigger] forks[i]) by {
        lemma_fork_members(list, before.universal, forks[i], i);
    }
    lemma_forks(state, version, before.table, forks);
    lemma_some_fork(list, before.universal);
    assert(after.ledger().extends(before.ledger()));
    assert(after.listed[n] == listing);
    lemma_others_stay(before, after, pending);
    lemma_state_sound_stays(before.ledger(), after.ledger(), state, pending);
    let old = before.waiting.len() as int;
    let states = fork_states(state, version, before.table, forks);
    assert forall|f: int| 0 <= f < forks.len() implies state_sound(
        after.ledger(),
        #[trigger] states[f],
        None,
    ) && told_carries(after.ledger(), states[f].told, listing, f) by {
        assert(entered(after.table, forks[f]));
        assert(after.table[state.next as int] == before.package());
        lemma_fork_sound(after.ledger(), state, listing, n, f, states[f]);
    }
    assert forall|i: int| 0 <= i < after.waiting.len() implies state_sound(
        after.ledger(),
        #[trigger] after.waiting[i],
        None,
    ) by {
        if i < old {
            assert(after.waiting[i] == before.waiting[i]);
        } else {
            assert(after.waiting[i] == states[i - old]);
        }
    }
    assert(after.waiting[old] == states[0]);
    assert(states[0].told == state.told.push(states[0].told[state.told.len() as int]));
    lemma_pushed(before, after, forks.len());
    assert forall|a: int| 0 <= a < after.listed.len() implies well_listed(
        #[trigger] after.listed[a],
        after.transitive,
    ) by {
        if a < n {
            assert(after.listed[a] == before.listed[a]);
        }
    }
    assert forall|f: int| 0 <= f < forks.len() implies old + f < after.waiting.len()
        && #[trigger] told_carries(
        after.ledger(),
        after.waiting[old + f].told,
        listing,
        f,
    ) by {
        assert(after.waiting[old + f] == states[f]);
    }
    lemma_split_keeps(before, after, listing);
}

/// Forking loses nothing.
proof fn lemma_split_keeps(before: ResolverView, after: ResolverView, listing: Listing)
    requires
        before.keeps_everything(),
        loses_nothing(before, after),
        after.ledger().extends(before.ledger()),
        after.listed == before.listed.push(listing),
        forall|f: int|
            0 <= f < forked(listing.dependencies, after.universal).len() ==> before.waiting.len()
                + f < after.waiting.len() && #[trigger] told_carries(
                after.ledger(),
                after.waiting[before.waiting.len() + f].told,
                listing,
                f,
            ),
    ensures
        after.keeps_everything(),
{
    let n = before.listed.len() as int;
    lemma_told_stays(before, after, initial_view().told);
    assert forall|a: int, f: int|
        #![trigger after.has_fork(after.listed[a], f)]
        0 <= a < after.listed.len() && 0 <= f < forked(
            after.listed[a].dependencies,
            after.universal,
        ).len() implies after.has_fork(after.listed[a], f) by {
        if a < n {
            assert(after.listed[a] == before.listed[a]);
            assert(before.has_fork(before.listed[a], f));
            lemma_has_fork_stays(before, after, before.listed[a], f);
        } else {
            let i = before.waiting.len() + f;
            assert(told_carries(after.ledger(), after.waiting[i].told, listing, f));
        }
    }
}

/// Finding the dependencies of the package that is next keeps everything sound.
proof fn lemma_find(
    before: ResolverView,
    version: VersionParts,
    range: Seq<Segment>,
    effects: Seq<EffectView>,
)
    requires
        before.current is Some,
        before.state().next < before.table.len(),
        before.states_sound(Some((before.state().next, version.key()))),
        before.keeps_everything(),
        before.admits(version),
    ensures
        before.find(version, range, effects).0.sound(),
{
    let pending = Some((before.state().next, version.key()));
    let after = before.find(version, range, effects).0;
    match first_finding(before.package(), version, before.transitive) {
        FindingView::Known(list) => {
            let listing = Listing { package: before.package(), version, dependencies: list };
            assert(all_named(list));
            assert(well_listed(listing, before.transitive));
            lemma_settle(before, version, effects, DependenciesView::Available(list));
        },
        _ => {
            assert(after.ledger() == before.ledger());
            lemma_moved(before, pending, after);
        },
    }
}

/// What a resolver waits for has no part in what its states did.
proof fn lemma_rephased(
    one: ResolverView,
    other: ResolverView,
    pending: Option<(u64, VersionKey)>,
)
    requires
        one.states_sound(pending),
        one.keeps_everything(),
        other == (ResolverView { phase: other.phase, reporting: other.reporting, ..one }),
    ensures
        other.states_sound(pending),
        other.keeps_everything(),
{
    assert(one.ledger() == other.ledger());
    assert(other.has_told(initial_view().told)) by {
        assert(one.has_told(initial_view().told));
        assert(other.waiting == one.waiting);
        assert(other.finished == one.finished);
    }
    assert forall|a: int, f: int|
        #![trigger other.has_fork(other.listed[a], f)]
        0 <= a < other.listed.len() && 0 <= f < forked(
            other.listed[a].dependencies,
            other.universal,
        ).len() implies other.has_fork(other.listed[a], f) by {
        let listing = one.listed[a];
        assert(one.has_fork(listing, f));
        if exists|i: int|
            0 <= i < one.waiting.len() && told_carries(
                one.ledger(),
                (#[trigger] one.waiting[i]).told,
                listing,
                f,
            ) {
            let i = choose|i: int|
                0 <= i < one.waiting.len() && told_carries(
                    one.ledger(),
                    (#[trigger] one.waiting[i]).told,
                    listing,
                    f,
                );
            assert(other.waiting[i] == one.waiting[i]);
        }
        if exists|i: int|
            0 <= i < one.finished.len() && told_carries(
                one.ledger(),
                (#[trigger] one.finished[i]).told,
                listing,
                f,
            ) {
            let i = choose|i: int|
                0 <= i < one.finished.len() && told_carries(
                    one.ledger(),
                    (#[trigger] one.finished[i]).told,
                    listing,
                    f,
                );
            assert(other.finished[i] == one.finished[i]);
        }
    }
}

/// Expanding requirements keeps everything sound.
#[verifier::spinoff_prover]
proof fn lemma_expand(before: ResolverView, version: VersionParts, entries: Seq<ExpandedView>)
    requires
        before.current is Some,
        before.state().next < before.table.len(),
        before.states_sound(Some((before.state().next, version.key()))),
        before.keeps_everything(),
        before.admits(version),
        before.package() is Root || before.package() is Package,
        all_expanded(entries),
    ensures
        before.expand(version, entries).0.sound(),
{
    let state = before.state();
    let pending = Some((state.next, version.key()));
    let after = before.expand(version, entries).0;
    let effects = visits_effects(entries);
    let dependencies = expanded_dependencies(entries);
    assert forall|i: int| 0 <= i < dependencies.len() implies (
    #[trigger] dependencies[i]).package.name() is Some by {
        assert(entries[i].wf());
    }
    match visits_error(entries) {
        Some(_) => {
            lemma_failed(before, pending, after);
        },
        None => {
            let table = with_dependencies(before.table, dependencies);
            let middle = ResolverView { table, ..before }.with(
                SolveView {
                    priorities: state.priorities + numbered(table, dependencies),
                    ..state
                },
            );
            lemma_with_dependencies(before.table, dependencies);
            assert(middle.ledger().extends(before.ledger()));
            lemma_state_sound_stays(before.ledger(), middle.ledger(), state, pending);
            assert(state_sound(middle.ledger(), middle.state(), pending));
            let asked = ResolverView {
                phase: PhaseView::PackageRequirements { version, range: Seq::empty() },
                ..middle
            };
            assert(middle.package() == before.package());
            assert(asked.package() == before.package());
            assert(asked.ledger() == middle.ledger());
            lemma_moved(before, pending, asked);
            lemma_rephased(asked, middle, pending);
            let more = unmarked(before.package(), version);
            let list = dependencies + more;
            let listing = Listing { package: before.package(), version, dependencies: list };
            assert forall|i: int| 0 <= i < list.len() implies (
            #[trigger] list[i]).package.name() is Some by {
                if i < dependencies.len() {
                    assert(list[i] == dependencies[i]);
                } else {
                    assert(list[i] == more[i - dependencies.len()]);
                }
            }
            assert forall|i: int| 0 <= i < more.len() implies list.contains(
                #[trigger] more[i],
            ) by {
                assert(list[dependencies.len() + i] == more[i]);
            }
            assert(well_listed(listing, before.transitive));
            lemma_settle(middle, version, effects, DependenciesView::Available(list));
        },
    }
}

/// Deciding on a version that depends on Python keeps everything sound.
proof fn lemma_require_python(
    before: ResolverView,
    version: VersionParts,
    python: Seq<Segment>,
)
    requires
        before.current is Some,
        before.state().next < before.table.len(),
        before.states_sound(None),
        before.package().name() is Some,
        with_pythons(before.table).len() <= u64::MAX,
    ensures
        ({
            let table = with_pythons(before.table);
            let state = before.state().require_python(version, python, table);
            let after = ResolverView { table, ..before }.with(state);
            &&& after.ledger().extends(before.ledger())
            &&& rooted(after.table)
            &&& state_sound(after.ledger(), state, None)
            &&& before.state().told.is_prefix_of(state.told)
        }),
{
    let state = before.state();
    let installed = PackageView::Python(PubGrubPython::Installed);
    let target = PackageView::Python(PubGrubPython::Target);
    let table = with_pythons(before.table);
    let after = ResolverView { table, ..before };
    lemma_with_package(before.table, installed);
    lemma_with_package(with_package(before.table, installed), target);
    assert(table.contains(installed)) by {
        let i = choose|i: int|
            0 <= i < with_package(before.table, installed).len() && with_package(
                before.table,
                installed,
            )[i] == installed;
        assert(table[i] == installed);
    }
    assert(after.ledger().extends(before.ledger()));
    lemma_state_sound_stays(before.ledger(), after.ledger(), state, None);
    let first = Told::Dependency {
        package: state.next,
        version,
        dependency: number_of(table, installed),
        range: python,
    };
    let second = Told::Dependency {
        package: state.next,
        version,
        dependency: number_of(table, target),
        range: python,
    };
    let third = Told::Decision { package: state.next, version };
    assert(table[state.next as int] == before.package());
    assert(table[table.index_of(installed)] == installed);
    assert(table[table.index_of(target)] == target);
    assert(is_backed(after.ledger(), state.pins, first));
    assert(is_backed(after.ledger(), state.pins, second));
    lemma_told_of(state.told, first, state.next, version.key());
    lemma_told_of(state.told.push(first), second, state.next, version.key());
    lemma_state_told(after.ledger(), state, None, first, None);
    lemma_state_told(after.ledger(), state.tell(first), None, second, None);
    lemma_state_told(after.ledger(), state.tell(first).tell(second), None, third, None);
}

/// Acting on a decision keeps everything sound.
#[verifier::spinoff_prover]
proof fn lemma_conclude(
    before: ResolverView,
    range: Seq<Segment>,
    effects: Seq<EffectView>,
    chosen: DecisionView,
)
    requires
        before.current is Some,
        before.state().next < before.table.len(),
        before.states_sound(None),
        before.keeps_everything(),
        chosen matches DecisionView::Available(version) ==> before.admits(version),
        chosen is Unavailable ==> before.package().name() is Some,
        before.conclude(range, effects, chosen).0.table.len() <= u64::MAX,
    ensures
        before.conclude(range, effects, chosen).0.sound(),
{
    let state = before.state();
    let after = before.conclude(range, effects, chosen).0;
    match chosen {
        DecisionView::Nothing => {
            let step = Told::NoVersions { package: state.next, range };
            assert(after.ledger() == before.ledger());
            lemma_state_told(before.ledger(), state, None, step, None);
            lemma_moved(before, None, after);
        },
        DecisionView::Unavailable(version, reason) => match python_reason(reason) {
            Some(specifiers) => {
                let parts = specifier_parts(specifiers@);
                if first_without_range(parts) is Some {
                    lemma_failed(before, None, after);
                } else {
                    lemma_require_python(before, version, all_segments(parts));
                    lemma_moved(before, None, after);
                }
            },
            None => {
                let step = Told::UnavailableVersion {
                    package: state.next,
                    version,
                    reason: before.reasons.len() as usize,
                };
                assert(after.ledger() == before.ledger());
                lemma_state_told(before.ledger(), state, None, step, None);
                lemma_moved(before, None, after);
            },
        },
        DecisionView::Available(version) => {
            let pair = (state.next, version.key());
            let noted = before.with(state.note(version));
            assert(noted.ledger() == before.ledger());
            if state.added_dependencies.contains(pair) {
                let step = Told::Decision { package: state.next, version };
                assert(state.added_dependencies.insert(pair) =~= state.added_dependencies);
                assert(state.note(version) == state);
                lemma_state_told(before.ledger(), state, None, step, None);
                lemma_moved(before, None, after);
            } else {
                assert(state_sound(noted.ledger(), noted.state(), Some(pair)));
                let asked = ResolverView {
                    phase: PhaseView::PackageRequirements { version, range },
                    ..noted
                };
                assert(asked.ledger() == before.ledger());
                lemma_moved(before, None, asked);
                lemma_rephased(asked, noted, Some(pair));
                lemma_find(noted, version, range, before.selected(effects, version, range));
            }
        },
    }
}

/// Whether picking a package by the ranks is as it should be: the package is in the table, and if
/// there is none, the solution respects everything that the solver was told, and every package in
/// it was decided on once.
pub open spec fn pick_fits(resolver: ResolverView, ranks: Seq<Option<(u32, usize)>>) -> bool {
    let after = resolver.state().pick(ranks);
    let packages = solution(after.told);
    match picked(resolver.state().told, ranks) {
        Some((package, _)) => package < resolver.table.len(),
        None => {
            &&& respected(after.told, packages)
            &&& forall|i: int|
                #![trigger packages[i]]
                0 <= i < packages.len() ==> decided(after.told, packages[i].0, packages[i].1)
            &&& forall|i: int, j: int|
                0 <= i < j < packages.len() ==> (#[trigger] packages[i]).0 != (
                #[trigger] packages[j]).0
        },
    }
}

/// The solution of a sound state is sound.
proof fn lemma_solved(before: ResolverView, ranks: Seq<Option<(u32, usize)>>)
    requires
        before.current is Some,
        before.states_sound(None),
        pick_fits(before, ranks),
        picked(before.state().told, ranks) is None,
    ensures
        solved_sound(before.ledger(), before.state().pick(ranks)),
{
    let state = before.state();
    let step = Told::Pick { ranks };
    lemma_state_told(before.ledger(), state, None, step, None);
    let after = state.pick(ranks);
    assert(after.told == state.tell(step).told);
    let packages = solution(after.told);
    assert forall|i: int|
        #![trigger packages[i]]
        0 <= i < packages.len() implies was_added(after.told, packages[i].0, packages[i].1.key())
        || was_limited(after.told, packages[i].0, packages[i].1.key()) by {
        let (package, version) = packages[i];
        assert(decided(after.told, package, version));
        if was_excluded(after.told, package, version.key()) {
            let k = choose|k: int|
                0 <= k < after.told.len() && #[trigger] excludes(
                    after.told[k],
                    package,
                    version.key(),
                );
            assert(respects(after.told[k], packages));
            assert(includes(packages, package, after.told[k]->UnavailableVersion_version));
        }
    }
}

/// Picking a package keeps everything sound.
#[verifier::spinoff_prover]
proof fn lemma_rank(before: ResolverView, ranks: Seq<Option<(u32, usize)>>)
    requires
        before.current is Some,
        before.states_sound(None),
        before.keeps_everything(),
        pick_fits(before, ranks),
        before.rank(ranks).0.table.len() <= u64::MAX,
    ensures
        before.rank(ranks).0.sound(),
{
    let state = before.state().pick(ranks);
    let after = before.rank(ranks).0;
    let step = Told::Pick { ranks };
    lemma_state_told(before.ledger(), before.state(), None, step, None);
    match picked(before.state().told, ranks) {
        None => {
            lemma_solved(before, ranks);
            assert(after.ledger() == before.ledger());
            let n = before.finished.len() as int;
            assert(after.finished[n] == state);
            assert forall|i: int| 0 <= i < after.finished.len() implies solved_sound(
                after.ledger(),
                #[trigger] after.finished[i],
            ) by {
                if i < n {
                    assert(after.finished[i] == before.finished[i]);
                }
            }
            assert forall|i: int| 0 <= i < before.waiting.len() implies after.has_told(
                (#[trigger] before.waiting[i]).told,
            ) by {
                lemma_has_told(after, before.waiting[i].told);
                assert(after.waiting[i] == before.waiting[i]);
            }
            assert forall|i: int| 0 <= i < before.finished.len() implies after.has_told(
                (#[trigger] before.finished[i]).told,
            ) by {
                lemma_has_told(after, before.finished[i].told);
                assert(after.finished[i] == before.finished[i]);
            }
            lemma_has_told(after, before.state().told);
            assert(before.state().told.is_prefix_of(after.finished[n].told));
            lemma_forks_stay(before, after);
        },
        Some((package, range)) => {
            let next = before.with(state);
            assert(next.ledger() == before.ledger());
            assert(state_sound(next.ledger(), state, None));
            let ready = ResolverView { phase: PhaseView::Ready, ..next };
            assert(ready.ledger() == before.ledger());
            lemma_moved(before, None, ready);
            lemma_rephased(ready, next, None);
            let tried = seq![EffectView::Tried(before.table[package as int])];
            match first_choice(next.package(), range, before.installed, before.target) {
                ChoiceView::Chosen(Some(version)) => {
                    lemma_conclude(next, range, tried, DecisionView::Available(version));
                },
                ChoiceView::Chosen(None) => {
                    lemma_conclude(next, range, tried, DecisionView::Nothing);
                },
                _ => {
                    assert(after.ledger() == before.ledger());
                    lemma_moved(before, None, after);
                },
            }
        },
    }
}

/// Choosing a version by a candidate keeps everything sound.
proof fn lemma_candidate(before: ResolverView, range: Seq<Segment>, candidate: Option<Candidate>)
    requires
        before.current is Some,
        before.state().next < before.table.len(),
        before.package().name() is Some,
        before.states_sound(None),
        before.keeps_everything(),
        before.take_candidate(range, candidate).0.table.len() <= u64::MAX,
    ensures
        before.take_candidate(range, candidate).0.sound(),
{
    let state = before.state();
    let pinned = before.pinned(candidate);
    let next = before.with(pinned);
    assert(next.ledger() == before.ledger());
    lemma_backed_stays(before.ledger(), before.ledger(), state.pins, pinned.pins, state.told);
    assert(state_sound(next.ledger(), pinned, None));
    let ready = ResolverView { phase: PhaseView::Ready, ..next };
    assert(ready.ledger() == before.ledger());
    lemma_moved(before, None, ready);
    lemma_rephased(ready, next, None);
    let effects = match candidate_request(candidate, before.package()) {
        Some((id, request)) => seq![EffectView::FetchMetadata { id, request: request@ }],
        None => Seq::empty(),
    };
    lemma_conclude(next, range, effects, decision(candidate_choice(candidate)));
}

/// Going on with the next state keeps everything sound.
proof fn lemma_resume(before: ResolverView)
    requires
        before.phase is Ready,
        before.sound(),
    ensures
        before.resume().0.sound(),
{
    let after = before.resume().0;
    assert(after.ledger() == before.ledger());
    if before.current is None && before.waiting.len() == 0 {
        lemma_rephased(before, after, None);
    } else if before.current is Some {
        let state = before.state();
        let step = Told::Propagate { package: state.next };
        lemma_state_told(before.ledger(), state, None, step, None);
        if after.phase is Failed {
            lemma_failed(before, None, after);
        } else {
            lemma_moved(before, None, after);
        }
    } else {
        let n = before.waiting.len() - 1;
        let state = before.waiting[n];
        let step = Told::Propagate { package: state.next };
        lemma_state_told(before.ledger(), state, None, step, None);
        assert forall|i: int| 0 <= i < after.waiting.len() implies state_sound(
            after.ledger(),
            #[trigger] after.waiting[i],
            None,
        ) by {
            assert(after.waiting[i] == before.waiting[i]);
        }
        if after.phase !is Failed {
            assert forall|i: int| 0 <= i < before.waiting.len() implies after.has_told(
                (#[trigger] before.waiting[i]).told,
            ) by {
                lemma_has_told(after, before.waiting[i].told);
                if i < n {
                    assert(after.waiting[i] == before.waiting[i]);
                } else {
                    assert(after.state() == before.waiting[i].tell(step));
                }
            }
            assert forall|i: int| 0 <= i < before.finished.len() implies after.has_told(
                (#[trigger] before.finished[i]).told,
            ) by {
                lemma_has_told(after, before.finished[i].told);
                assert(after.finished[i] == before.finished[i]);
            }
            lemma_forks_stay(before, after);
        }
    }
}

/// A resolver that starts is sound.
pub proof fn lemma_initial(resolver: ResolverView)
    requires
        resolver.table.len() == 1,
        resolver.table[0] is Root,
        resolver.current is None,
        resolver.waiting == seq![initial_view()],
        resolver.finished.len() == 0,
        resolver.listed.len() == 0,
        resolver.phase is Ready,
    ensures
        resolver.sound(),
{
    let state = initial_view();
    assert forall|package: u64, version: VersionParts| !#[trigger]
        decided(state.told, package, version) by {
        if decided(state.told, package, version) {
            let k = choose|k: int|
                0 <= k < state.told.len() && #[trigger] decides(state.told[k], package, version);
            assert(state.told[k] is Root);
        }
    }
    assert(state_sound(resolver.ledger(), state, None));
    assert(resolver.waiting[0] == state);
    assert(state.told.is_prefix_of(resolver.waiting[0].told));
}

/// Whether progress is reported has no part in what the states did.
pub proof fn lemma_reporting(resolver: ResolverView)
    requires
        resolver.sound(),
    ensures
        (ResolverView { reporting: true, ..resolver }).sound(),
{
    let reporting = ResolverView { reporting: true, ..resolver };
    if resolver.phase is Failed {
        assert(reporting.ledger() == resolver.ledger());
    } else {
        lemma_rephased(resolver, reporting, resolver.pending());
    }
}

/// Every answer keeps everything sound.
#[verifier::spinoff_prover]
pub proof fn lemma_advance(before: ResolverView, answer: Answer)
    requires
        before.expects(answer),
        before.in_phase(),
        before.sound(),
        answer matches Answer::Ranks(ranks) ==> pick_fits(before, ranks.ranks@),
        before.advance(answer).0.table.len() <= u64::MAX,
    ensures
        before.advance(answer).0.sound(),
{
    let after = before.advance(answer).0;
    let pending = before.pending();
    match (before.phase, answer) {
        (PhaseView::Ready, _) => {
            lemma_resume(before);
        },
        (PhaseView::Ranking, Answer::Ranks(ranks)) => {
            lemma_rank(before, ranks.ranks@);
        },
        (PhaseView::Metadata { range }, Answer::Metadata(response)) => match response {
            Some(response) => {
                lemma_conclude(
                    before,
                    range,
                    marks(before.name(), metadata_reason(response)),
                    decision(metadata_choice(response, range, before.target)),
                );
            },
            None => {
                lemma_failed(before, None, after);
            },
        },
        (PhaseView::Versions { .. }, Answer::Versions(response)) => {
            assert(after.ledger() == before.ledger());
            if response is Some {
                lemma_moved(before, None, after);
            } else {
                lemma_failed(before, None, after);
            }
        },
        (PhaseView::Candidate { range }, Answer::Candidate(candidate)) => {
            lemma_candidate(before, range, candidate);
        },
        (PhaseView::Reason { range }, Answer::Reason(reason)) => {
            let state = before.state();
            assert(after.ledger() == before.ledger());
            let step = match reason {
                Some(_) => Told::UnavailablePackage {
                    package: state.next,
                    range,
                    reason: before.reasons.len() as usize,
                },
                None => Told::NoVersions { package: state.next, range },
            };
            lemma_state_told(before.ledger(), state, None, step, None);
            lemma_moved(before, None, after);
        },
        (
            PhaseView::RootRequirements { version, .. },
            Answer::RootRequirements(requirements),
        ) => match requirements {
            Ok(entries) => {
                lemma_expand(before, version, expanded_list(entries@));
            },
            Err(text) => {
                lemma_settle(
                    before,
                    version,
                    Seq::empty(),
                    DependenciesView::Unavailable(
                        VersionReason::ResolverError(uncapitalized(text@)),
                    ),
                );
            },
        },
        (PhaseView::DirectMetadata { version, .. }, Answer::DirectMetadata(registered)) => {
            if registered {
                lemma_settle(
                    before,
                    version,
                    Seq::empty(),
                    DependenciesView::Available(Seq::empty()),
                );
            } else {
                lemma_failed(before, pending, after);
            }
        },
        (PhaseView::Availability { .. }, Answer::Availability { .. }) => {
            assert(after.ledger() == before.ledger());
            if after.phase is Failed {
                lemma_failed(before, pending, after);
            } else {
                lemma_moved(before, pending, after);
            }
        },
        (PhaseView::PackageMetadata { version, .. }, Answer::PackageMetadata(response)) => {
            assert(after.ledger() == before.ledger());
            if response is None {
                lemma_failed(before, pending, after);
            } else if incomplete_reason(response->0) is Some {
                let (incomplete, reason) = incomplete_reason(response->0)->0;
                lemma_settle(
                    before,
                    version,
                    seq![EffectView::MarkIncomplete(before.name(), version, incomplete)],
                    DependenciesView::Unavailable(reason@),
                );
            } else {
                lemma_moved(before, pending, after);
            }
        },
        (
            PhaseView::PackageRequirements { version, .. },
            Answer::PackageRequirements(requirements),
        ) => match requirements {
            Ok(entries) => {
                lemma_expand(before, version, expanded_list(entries@));
            },
            Err(_) => {
                lemma_failed(before, pending, after);
            },
        },
        _ => {},
    }
}

} // verus!
