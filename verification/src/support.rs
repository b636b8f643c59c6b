use vstd::prelude::*;

use crate::dependencies::{first_finding, forked, unmarked, FindingView};
use crate::dist::ResolvedDist;
use crate::forks::{
    all_named, law_agreeing_dependencies_do_not_fork, law_every_dependency_is_in_a_fork,
    law_forks_add_no_dependency, DependencyView,
};
use crate::package::PackageView;
use crate::pep440::min_version_parts;
use crate::solver::{decided, decides, solution, Told};
use crate::state::{initial_view, number_of, numbered, with_dependencies, with_package, SolveView};
use crate::transition::{depends_on, fork_states, fork_table, Listing, PhaseView, ResolverView};
use crate::version::{VersionKey, VersionParts};

verus! {

/// Whether the first package of the table is the root, and no other is.
pub open spec fn rooted(table: Seq<PackageView>) -> bool {
    &&& table.len() > 0
    &&& forall|i: int| 0 <= i < table.len() ==> ((#[trigger] table[i]) is Root <==> i == 0)
}

/// Whether the table has the packages of all dependencies.
pub open spec fn entered(table: Seq<PackageView>, dependencies: Seq<DependencyView>) -> bool {
    forall|i: int|
        0 <= i < dependencies.len() ==> table.contains((#[trigger] dependencies[i]).package)
}

/// Whether the step adds the package at the version, with its dependencies.
pub open spec fn adds(step: Told, package: u64, key: VersionKey) -> bool {
    step matches Told::Version { package: subject, version, .. } && subject == package
        && version.key() == key
}

/// Whether the step says what the package at the version needs of Python.
pub open spec fn limits(step: Told, package: u64, key: VersionKey) -> bool {
    step matches Told::Dependency { package: subject, version, .. } && subject == package
        && version.key() == key
}

/// Whether the step rules out the package at the version.
pub open spec fn excludes(step: Told, package: u64, key: VersionKey) -> bool {
    step matches Told::UnavailableVersion { package: subject, version, .. } && subject == package
        && version.key() == key
}

/// Whether a step added the package at the version.
pub open spec fn was_added(told: Seq<Told>, package: u64, key: VersionKey) -> bool {
    exists|k: int| 0 <= k < told.len() && #[trigger] adds(told[k], package, key)
}

/// Whether a step said what the package at the version needs of Python.
pub open spec fn was_limited(told: Seq<Told>, package: u64, key: VersionKey) -> bool {
    exists|k: int| 0 <= k < told.len() && #[trigger] limits(told[k], package, key)
}

/// Whether a step ruled out the package at the version.
pub open spec fn was_excluded(told: Seq<Told>, package: u64, key: VersionKey) -> bool {
    exists|k: int| 0 <= k < told.len() && #[trigger] excludes(told[k], package, key)
}

/// One more step keeps what was told, and adds what it says itself.
pub proof fn lemma_told_of(told: Seq<Told>, step: Told, package: u64, key: VersionKey)
    ensures
        was_added(told.push(step), package, key) == (was_added(told, package, key) || adds(
            step,
            package,
            key,
        )),
        was_limited(told.push(step), package, key) == (was_limited(told, package, key) || limits(
            step,
            package,
            key,
        )),
        was_excluded(told.push(step), package, key) == (was_excluded(told, package, key)
            || excludes(step, package, key)),
{
    let longer = told.push(step);
    let n = told.len() as int;
    assert(longer[n] == step);
    assert(forall|k: int| 0 <= k < n ==> longer[k] == told[k]);
    if was_added(told, package, key) {
        let k = choose|k: int| 0 <= k < told.len() && #[trigger] adds(told[k], package, key);
        assert(adds(longer[k], package, key));
    }
    if adds(step, package, key) {
        assert(adds(longer[n], package, key));
    }
    if was_added(longer, package, key) {
        let k = choose|k: int| 0 <= k < longer.len() && #[trigger] adds(longer[k], package, key);
        if k < n {
            assert(adds(told[k], package, key));
        }
    }
    if was_limited(told, package, key) {
        let k = choose|k: int| 0 <= k < told.len() && #[trigger] limits(told[k], package, key);
        assert(limits(longer[k], package, key));
    }
    if limits(step, package, key) {
        assert(limits(longer[n], package, key));
    }
    if was_limited(longer, package, key) {
        let k = choose|k: int| 0 <= k < longer.len() && #[trigger] limits(longer[k], package, key);
        if k < n {
            assert(limits(told[k], package, key));
        }
    }
    if was_excluded(told, package, key) {
        let k = choose|k: int| 0 <= k < told.len() && #[trigger] excludes(told[k], package, key);
        assert(excludes(longer[k], package, key));
    }
    if excludes(step, package, key) {
        assert(excludes(longer[n], package, key));
    }
    if was_excluded(longer, package, key) {
        let k = choose|k: int|
            0 <= k < longer.len() && #[trigger] excludes(longer[k], package, key);
        if k < n {
            assert(excludes(told[k], package, key));
        }
    }
}

/// The packages by their numbers, and what each was found to depend on.
pub struct Ledger {
    pub table: Seq<PackageView>,
    pub listed: Seq<Listing>,
    pub universal: bool,
}

impl Ledger {
    /// Whether this goes on from another ledger.
    pub open spec fn extends(self, other: Ledger) -> bool {
        &&& other.table.is_prefix_of(self.table)
        &&& self.table.no_duplicates()
        &&& other.listed.is_prefix_of(self.listed)
        &&& self.universal == other.universal
    }
}

impl ResolverView {
    /// The packages of the resolver, and what each was found to depend on.
    pub open spec fn ledger(self) -> Ledger {
        Ledger { table: self.table, listed: self.listed, universal: self.universal }
    }
}

/// Whether the step adds the package of the listing at its version, with the dependencies of the
/// fork `f`.
pub open spec fn carries(ledger: Ledger, step: Told, listing: Listing, f: int) -> bool {
    let forks = forked(listing.dependencies, ledger.universal);
    &&& 0 <= f < forks.len()
    &&& entered(ledger.table, forks[f])
    &&& step matches Told::Version { package, version, dependencies } && package
        < ledger.table.len() && ledger.table[package as int] == listing.package && version
        == listing.version && dependencies == numbered(ledger.table, forks[f])
}

/// Whether the step carries a fork of something that is listed.
pub open spec fn is_listed(ledger: Ledger, step: Told) -> bool {
    exists|a: int, f: int|
        0 <= a < ledger.listed.len() && #[trigger] carries(ledger, step, ledger.listed[a], f)
}

/// Whether a package of a registry is pinned at the version.
pub open spec fn is_pinned(
    package: PackageView,
    key: VersionKey,
    pins: Map<(Seq<char>, VersionKey), ResolvedDist>,
) -> bool {
    package.name() matches Some(name) ==> package.url() is None ==> pins.dom().contains((name, key))
}

/// Whether the step rests on what was found: a version is added with dependencies that are listed,
/// and pinned if it is of a registry, and only named packages depend directly on Python.
pub open spec fn is_backed(
    ledger: Ledger,
    pins: Map<(Seq<char>, VersionKey), ResolvedDist>,
    step: Told,
) -> bool {
    match step {
        Told::Version { package, version, .. } => is_listed(ledger, step) && package
            < ledger.table.len() && is_pinned(ledger.table[package as int], version.key(), pins),
        Told::Dependency { package, dependency, .. } => package < ledger.table.len()
            && ledger.table[package as int].name() is Some && dependency < ledger.table.len()
            && ledger.table[dependency as int] is Python,
        _ => true,
    }
}

/// Whether every step rests on what was found.
pub open spec fn all_backed(
    ledger: Ledger,
    pins: Map<(Seq<char>, VersionKey), ResolvedDist>,
    told: Seq<Told>,
) -> bool {
    forall|k: int| 0 <= k < told.len() ==> is_backed(ledger, pins, #[trigger] told[k])
}

/// Whether each decision is on a package at a version that was added, or of which it was said what
/// it needs of Python, or that was ruled out.
pub open spec fn decisions_explained(told: Seq<Told>) -> bool {
    forall|package: u64, version: VersionParts| #[trigger]
        decided(told, package, version) ==> was_added(told, package, version.key())
            || was_limited(told, package, version.key()) || was_excluded(
            told,
            package,
            version.key(),
        )
}

/// Whether each package that was retrieved at a version, other than the pending one, was added or
/// ruled out.
pub open spec fn retrieved(
    told: Seq<Told>,
    added: Set<(u64, VersionKey)>,
    pending: Option<(u64, VersionKey)>,
) -> bool {
    forall|package: u64, key: VersionKey| #[trigger]
        added.contains((package, key)) ==> pending == Some((package, key)) || was_added(
            told,
            package,
            key,
        ) || was_excluded(told, package, key)
}

/// Whether everything that a state did rests on what was found, up to the pending version.
pub open spec fn state_sound(
    ledger: Ledger,
    state: SolveView,
    pending: Option<(u64, VersionKey)>,
) -> bool {
    &&& all_backed(ledger, state.pins, state.told)
    &&& decisions_explained(state.told)
    &&& retrieved(state.told, state.added_dependencies, pending)
}

/// Whether each package of the solution was added at its version, or it was said what it needs of
/// Python there, and no package is in the solution twice.
pub open spec fn solution_explained(told: Seq<Told>) -> bool {
    let packages = solution(told);
    &&& forall|i: int|
        #![trigger packages[i]]
        0 <= i < packages.len() ==> was_added(told, packages[i].0, packages[i].1.key())
            || was_limited(told, packages[i].0, packages[i].1.key())
    &&& forall|i: int, j: int|
        0 <= i < j < packages.len() ==> (#[trigger] packages[i]).0 != (#[trigger] packages[j]).0
}

/// Whether everything that a solved state did and resolved rests on what was found.
pub open spec fn solved_sound(ledger: Ledger, state: SolveView) -> bool {
    &&& all_backed(ledger, state.pins, state.told)
    &&& solution_explained(state.told)
}

/// Whether the package carries an extra.
pub open spec fn with_extra(package: PackageView) -> bool {
    package matches PackageView::Package { extra, .. } && extra is Some
}

/// Whether the listing is one that the resolver makes: every dependency is on a named package, the
/// root has one version, an extra depends on its package without and with the extra, and a package
/// with a marker on the same one without.
pub open spec fn well_listed(listing: Listing, transitive: bool) -> bool {
    &&& all_named(listing.dependencies)
    &&& listing.package is Root ==> listing.version == min_version_parts()
    &&& listing.package is Extra ==> first_finding(listing.package, listing.version, transitive)
        == FindingView::Known(listing.dependencies)
    &&& transitive ==> forall|i: int|
        0 <= i < unmarked(listing.package, listing.version).len() ==> listing.dependencies.contains(
            #[trigger] unmarked(listing.package, listing.version)[i],
        )
}

/// Whether the listing leads to a package with an extra only through the package of the extra, or
/// through the same package with a marker.
pub open spec fn extras_by_proxy(listing: Listing) -> bool {
    forall|i: int|
        0 <= i < listing.dependencies.len() && with_extra(
            (#[trigger] listing.dependencies[i]).package,
        ) ==> listing.package is Extra || unmarked(
            listing.package,
            listing.version,
        ).contains(listing.dependencies[i])
}

/// Whether the steps hold one that carries the fork `f` of the listing.
pub open spec fn told_carries(ledger: Ledger, told: Seq<Told>, listing: Listing, f: int) -> bool {
    exists|k: int| 0 <= k < told.len() && #[trigger] carries(ledger, told[k], listing, f)
}

impl ResolverView {
    /// Whether a state of the resolver, solved or not, goes on from the steps.
    pub open spec fn has_told(self, told: Seq<Told>) -> bool {
        ||| self.current matches Some(state) && told.is_prefix_of(state.told)
        ||| exists|i: int|
            0 <= i < self.waiting.len() && told.is_prefix_of((#[trigger] self.waiting[i]).told)
        ||| exists|i: int|
            0 <= i < self.finished.len() && told.is_prefix_of((#[trigger] self.finished[i]).told)
    }

    /// Whether a state of the resolver, solved or not, was told the fork `f` of the listing.
    pub open spec fn has_fork(self, listing: Listing, f: int) -> bool {
        ||| self.current matches Some(state) && told_carries(
            self.ledger(),
            state.told,
            listing,
            f,
        )
        ||| exists|i: int|
            0 <= i < self.waiting.len() && told_carries(
                self.ledger(),
                (#[trigger] self.waiting[i]).told,
                listing,
                f,
            )
        ||| exists|i: int|
            0 <= i < self.finished.len() && told_carries(
                self.ledger(),
                (#[trigger] self.finished[i]).told,
                listing,
                f,
            )
    }

    /// Whether there is a state that goes on from the first one, and for every fork of everything
    /// that is listed there is a state that was told it.
    pub open spec fn keeps_everything(self) -> bool {
        &&& self.has_told(initial_view().told)
        &&& forall|a: int, f: int|
            #![trigger self.has_fork(self.listed[a], f)]
            0 <= a < self.listed.len() && 0 <= f < forked(
                self.listed[a].dependencies,
                self.universal,
            ).len() ==> self.has_fork(self.listed[a], f)
    }

    /// The package at the version whose dependencies are being found.
    pub open spec fn pending(self) -> Option<(u64, VersionKey)> {
        match self.phase {
            PhaseView::RootRequirements { version, .. } => Some((self.state().next, version.key())),
            PhaseView::DirectMetadata { version, .. } => Some((self.state().next, version.key())),
            PhaseView::Availability { version, .. } => Some((self.state().next, version.key())),
            PhaseView::PackageMetadata { version, .. } => Some((self.state().next, version.key())),
            PhaseView::PackageRequirements { version, .. } => Some(
                (self.state().next, version.key()),
            ),
            _ => None,
        }
    }

    /// Whether the version is one that the package that is next can be added at: it is pinned if
    /// the package is of a registry, and the version of the root is the lowest there is.
    pub open spec fn admits(self, version: VersionParts) -> bool {
        &&& is_pinned(self.package(), version.key(), self.state().pins)
        &&& self.package() is Root ==> version == min_version_parts()
    }

    /// Whether what the resolver waits for fits the package that is next.
    pub open spec fn phase_sound(self) -> bool {
        match self.phase {
            PhaseView::Metadata { .. } => self.package().url() is Some,
            PhaseView::RootRequirements { version, .. } => self.admits(version),
            PhaseView::DirectMetadata { version, .. } => self.admits(version) && !self.transitive,
            PhaseView::Availability { version, .. } => self.admits(version),
            PhaseView::PackageMetadata { version, .. } => self.admits(version),
            PhaseView::PackageRequirements { version, .. } => self.admits(version),
            _ => true,
        }
    }

    /// Whether everything that the states did rests on what was found, up to the pending version
    /// of the state at hand.
    pub open spec fn states_sound(self, pending: Option<(u64, VersionKey)>) -> bool {
        &&& self.table.no_duplicates()
        &&& rooted(self.table)
        &&& self.current matches Some(state) ==> state_sound(self.ledger(), state, pending)
        &&& forall|i: int|
            0 <= i < self.waiting.len() ==> state_sound(
                self.ledger(),
                #[trigger] self.waiting[i],
                None,
            )
        &&& forall|i: int|
            0 <= i < self.finished.len() ==> solved_sound(
                self.ledger(),
                #[trigger] self.finished[i],
            )
        &&& forall|a: int|
            0 <= a < self.listed.len() ==> well_listed(#[trigger] self.listed[a], self.transitive)
    }

    /// Whether everything that was done rests on what was found, and nothing that was found is
    /// lost, unless the resolution failed.
    pub open spec fn sound(self) -> bool {
        &&& self.states_sound(self.pending())
        &&& self.phase_sound()
        &&& self.phase !is Failed ==> self.keeps_everything()
    }
}

/// A package keeps its number in a longer table.
pub proof fn lemma_number_stays(
    table: Seq<PackageView>,
    longer: Seq<PackageView>,
    package: PackageView,
)
    requires
        table.is_prefix_of(longer),
        longer.no_duplicates(),
        table.contains(package),
    ensures
        longer.contains(package),
        number_of(longer, package) == number_of(table, package),
{
    let i = table.index_of(package);
    assert(table[i] == package);
    assert(longer[i] == package);
    let j = longer.index_of(package);
    assert(longer[j] == package);
    assert(i == j);
}

/// Packages keep their numbers in a longer table.
pub proof fn lemma_numbers_stay(
    table: Seq<PackageView>,
    longer: Seq<PackageView>,
    dependencies: Seq<DependencyView>,
)
    requires
        table.is_prefix_of(longer),
        longer.no_duplicates(),
        entered(table, dependencies),
    ensures
        entered(longer, dependencies),
        numbered(longer, dependencies) == numbered(table, dependencies),
{
    assert forall|i: int| 0 <= i < dependencies.len() implies longer.contains(
        (#[trigger] dependencies[i]).package,
    ) && number_of(longer, dependencies[i].package) == number_of(
        table,
        dependencies[i].package,
    ) by {
        lemma_number_stays(table, longer, dependencies[i].package);
    }
    assert(numbered(longer, dependencies) =~= numbered(table, dependencies));
}

/// Adding the packages of dependencies to a table.
pub proof fn lemma_with_dependencies(table: Seq<PackageView>, dependencies: Seq<DependencyView>)
    requires
        table.no_duplicates(),
        rooted(table),
        all_named(dependencies),
    ensures
        ({
            let longer = with_dependencies(table, dependencies);
            &&& table.is_prefix_of(longer)
            &&& longer.no_duplicates()
            &&& rooted(longer)
            &&& entered(longer, dependencies)
        }),
    decreases dependencies.len(),
{
    if dependencies.len() > 0 {
        let before = dependencies.drop_last();
        assert forall|i: int| 0 <= i < before.len() implies (
        #[trigger] before[i]).package.name() is Some by {
            assert(before[i] == dependencies[i]);
        }
        lemma_with_dependencies(table, before);
        let package = dependencies[dependencies.len() - 1].package;
        assert(package.name() is Some);
        let middle = with_dependencies(table, before);
        lemma_with_package(middle, package);
        let longer = with_dependencies(table, dependencies);
        assert forall|i: int| 0 <= i < dependencies.len() implies longer.contains(
            (#[trigger] dependencies[i]).package,
        ) by {
            if i < before.len() {
                assert(before[i] == dependencies[i]);
                lemma_number_stays(middle, longer, before[i].package);
            }
        }
    }
}

/// Adding a package other than the root to a table.
pub proof fn lemma_with_package(table: Seq<PackageView>, package: PackageView)
    requires
        table.no_duplicates(),
        rooted(table),
        package !is Root,
    ensures
        ({
            let longer = with_package(table, package);
            &&& table.is_prefix_of(longer)
            &&& longer.no_duplicates()
            &&& rooted(longer)
            &&& longer.contains(package)
        }),
{
    let longer = with_package(table, package);
    if !table.contains(package) {
        assert(longer[table.len() as int] == package);
    }
}

/// The dependencies of a fork are among those that were split: named, and on the same packages.
pub proof fn lemma_fork_members(
    dependencies: Seq<DependencyView>,
    universal: bool,
    fork: Seq<DependencyView>,
    k: int,
)
    requires
        all_named(dependencies),
        0 <= k < forked(dependencies, universal).len(),
        fork == forked(dependencies, universal)[k],
    ensures
        all_named(fork),
        forall|package: PackageView|
            !depends_on(dependencies, package) ==> !#[trigger] depends_on(fork, package),
{
    let forks = forked(dependencies, universal);
    assert forall|i: int| 0 <= i < fork.len() implies dependencies.contains(
        #[trigger] fork[i],
    ) by {
        if universal {
            assert(forks.contains(fork));
            assert(fork.contains(fork[i]));
            law_forks_add_no_dependency(dependencies, fork, fork[i]);
        } else {
            assert(fork == dependencies);
        }
    }
    assert forall|i: int| 0 <= i < fork.len() implies (#[trigger] fork[i]).package.name()
        is Some by {
        assert(dependencies.contains(fork[i]));
        let j = choose|j: int| 0 <= j < dependencies.len() && dependencies[j] == fork[i];
        assert(dependencies[j].package.name() is Some);
    }
    assert forall|package: PackageView| !depends_on(
        dependencies,
        package,
    ) implies !#[trigger] depends_on(fork, package) by {
        if depends_on(fork, package) {
            let i = choose|i: int| 0 <= i < fork.len() && (#[trigger] fork[i]).package == package;
            assert(dependencies.contains(fork[i]));
            let j = choose|j: int| 0 <= j < dependencies.len() && dependencies[j] == fork[i];
            assert(dependencies[j].package == package);
        }
    }
}

/// There is always a fork.
pub proof fn lemma_some_fork(dependencies: Seq<DependencyView>, universal: bool)
    ensures
        forked(dependencies, universal).len() > 0,
{
    if universal {
        if dependencies.len() > 0 {
            assert(dependencies.contains(dependencies[0]));
            law_every_dependency_is_in_a_fork(dependencies, dependencies[0]);
        } else {
            law_agreeing_dependencies_do_not_fork(dependencies);
        }
    }
}

/// Adding the packages of forks to a table; the states that the forks lead to.
pub proof fn lemma_forks(
    state: SolveView,
    version: VersionParts,
    table: Seq<PackageView>,
    forks: Seq<Seq<DependencyView>>,
)
    requires
        table.no_duplicates(),
        rooted(table),
        forall|i: int| 0 <= i < forks.len() ==> all_named(#[trigger] forks[i]),
    ensures
        ({
            let longer = fork_table(table, forks);
            &&& table.is_prefix_of(longer)
            &&& longer.no_duplicates()
            &&& rooted(longer)
            &&& forall|i: int| 0 <= i < forks.len() ==> entered(longer, #[trigger] forks[i])
            &&& fork_states(state, version, table, forks).len() == forks.len()
            &&& forall|i: int|
                0 <= i < forks.len() ==> (#[trigger] fork_states(state, version, table, forks)[i])
                    == state.tell(
                    Told::Version {
                        package: state.next,
                        version,
                        dependencies: numbered(longer, forks[i]),
                    },
                )
        }),
    decreases forks.len(),
{
    if forks.len() > 0 {
        let before = forks.drop_last();
        assert forall|i: int| 0 <= i < before.len() implies all_named(#[trigger] before[i]) by {
            assert(before[i] == forks[i]);
        }
        lemma_forks(state, version, table, before);
        let middle = fork_table(table, before);
        let longer = fork_table(table, forks);
        let last = forks.len() - 1;
        assert(all_named(forks[last]));
        lemma_with_dependencies(middle, forks.last());
        let states = fork_states(state, version, table, forks);
        assert forall|i: int| 0 <= i < forks.len() implies entered(longer, #[trigger] forks[i])
            && states[i] == state.tell(
            Told::Version {
                package: state.next,
                version,
                dependencies: numbered(longer, forks[i]),
            },
        ) by {
            if i < last {
                assert(before[i] == forks[i]);
                assert(entered(middle, before[i]));
                lemma_numbers_stay(middle, longer, forks[i]);
                assert(states[i] == fork_states(state, version, table, before)[i]);
            }
        }
        assert forall|i: int| 0 <= i < forks.len() implies (#[trigger] states[i]) == state.tell(
            Told::Version {
                package: state.next,
                version,
                dependencies: numbered(longer, forks[i]),
            },
        ) by {
            assert(entered(longer, forks[i]));
        }
    }
}

/// What a step carries it carries in a ledger that goes on.
pub proof fn lemma_carries_stays(
    ledger: Ledger,
    longer: Ledger,
    step: Told,
    listing: Listing,
    f: int,
)
    requires
        longer.extends(ledger),
        carries(ledger, step, listing, f),
    ensures
        carries(longer, step, listing, f),
{
    let forks = forked(listing.dependencies, ledger.universal);
    lemma_numbers_stay(ledger.table, longer.table, forks[f]);
}

/// What rests on a ledger rests on one that goes on, and on more pins.
pub proof fn lemma_backed_stays(
    ledger: Ledger,
    longer: Ledger,
    pins: Map<(Seq<char>, VersionKey), ResolvedDist>,
    more: Map<(Seq<char>, VersionKey), ResolvedDist>,
    told: Seq<Told>,
)
    requires
        longer.extends(ledger),
        pins.dom().subset_of(more.dom()),
        all_backed(ledger, pins, told),
    ensures
        all_backed(longer, more, told),
{
    assert forall|k: int| 0 <= k < told.len() implies is_backed(
        longer,
        more,
        #[trigger] told[k],
    ) by {
        assert(is_backed(ledger, pins, told[k]));
        if told[k] is Version {
            let (a, f) = choose|a: int, f: int|
                0 <= a < ledger.listed.len() && #[trigger] carries(
                    ledger,
                    told[k],
                    ledger.listed[a],
                    f,
                );
            lemma_carries_stays(ledger, longer, told[k], ledger.listed[a], f);
            assert(longer.listed[a] == ledger.listed[a]);
            assert(carries(longer, told[k], longer.listed[a], f));
        }
    }
}

/// A state stays sound when the ledger goes on.
pub proof fn lemma_state_sound_stays(
    ledger: Ledger,
    longer: Ledger,
    state: SolveView,
    pending: Option<(u64, VersionKey)>,
)
    requires
        longer.extends(ledger),
        state_sound(ledger, state, pending),
    ensures
        state_sound(longer, state, pending),
{
    lemma_backed_stays(ledger, longer, state.pins, state.pins, state.told);
}

/// A state stays sound with a step that is backed, and that decides on a version only if it is
/// explained. The pending version is added or ruled out, or stays pending.
pub proof fn lemma_state_told(
    ledger: Ledger,
    state: SolveView,
    pending: Option<(u64, VersionKey)>,
    step: Told,
    after: Option<(u64, VersionKey)>,
)
    requires
        state_sound(ledger, state, pending),
        is_backed(ledger, state.pins, step),
        step matches Told::Decision { package, version } ==> was_added(
            state.told,
            package,
            version.key(),
        ) || was_limited(state.told, package, version.key()) || was_excluded(
            state.told,
            package,
            version.key(),
        ),
        pending == after || (after is None && (pending matches Some((package, key)) && (adds(
            step,
            package,
            key,
        ) || excludes(step, package, key)))),
    ensures
        state_sound(ledger, state.tell(step), after),
{
    let told = state.told;
    let longer = told.push(step);
    assert forall|k: int| 0 <= k < longer.len() implies is_backed(
        ledger,
        state.pins,
        #[trigger] longer[k],
    ) by {
        if k < told.len() {
            assert(is_backed(ledger, state.pins, told[k]));
        }
    }
    assert forall|package: u64, version: VersionParts| #[trigger]
        decided(longer, package, version) implies was_added(longer, package, version.key())
        || was_limited(longer, package, version.key()) || was_excluded(
        longer,
        package,
        version.key(),
    ) by {
        lemma_told_of(told, step, package, version.key());
        let k = choose|k: int|
            0 <= k < longer.len() && #[trigger] decides(longer[k], package, version);
        if k < told.len() {
            assert(decides(told[k], package, version));
            assert(decided(told, package, version));
        } else {
            assert(longer[k] == step);
        }
    }
    assert forall|package: u64, key: VersionKey| #[trigger]
        state.added_dependencies.contains((package, key)) implies after == Some((package, key))
        || was_added(longer, package, key) || was_excluded(longer, package, key) by {
        lemma_told_of(told, step, package, key);
    }
}

/// Steps that go on from others carry what those carry.
pub proof fn lemma_told_carries_stays(
    ledger: Ledger,
    longer: Ledger,
    told: Seq<Told>,
    more: Seq<Told>,
    listing: Listing,
    f: int,
)
    requires
        longer.extends(ledger),
        told.is_prefix_of(more),
        told_carries(ledger, told, listing, f),
    ensures
        told_carries(longer, more, listing, f),
{
    let k = choose|k: int| 0 <= k < told.len() && #[trigger] carries(ledger, told[k], listing, f);
    lemma_carries_stays(ledger, longer, told[k], listing, f);
    assert(more[k] == told[k]);
    assert(carries(longer, more[k], listing, f));
}

/// Whether every state of a resolver has one that goes on from it.
pub open spec fn loses_nothing(before: ResolverView, after: ResolverView) -> bool {
    &&& before.current matches Some(state) ==> after.has_told(state.told)
    &&& forall|i: int|
        0 <= i < before.waiting.len() ==> after.has_told((#[trigger] before.waiting[i]).told)
    &&& forall|i: int|
        0 <= i < before.finished.len() ==> after.has_told((#[trigger] before.finished[i]).told)
}

/// A resolver has what its states were told.
pub proof fn lemma_has_told(resolver: ResolverView, told: Seq<Told>)
    ensures
        resolver.current matches Some(state) ==> (told.is_prefix_of(state.told)
            ==> resolver.has_told(told)),
        forall|i: int|
            0 <= i < resolver.waiting.len() && told.is_prefix_of(
                (#[trigger] resolver.waiting[i]).told,
            ) ==> resolver.has_told(told),
        forall|i: int|
            0 <= i < resolver.finished.len() && told.is_prefix_of(
                (#[trigger] resolver.finished[i]).told,
            ) ==> resolver.has_told(told),
{
}

/// If nothing is lost, what was told is still there.
pub proof fn lemma_told_stays(before: ResolverView, after: ResolverView, told: Seq<Told>)
    requires
        loses_nothing(before, after),
        before.has_told(told),
    ensures
        after.has_told(told),
{
    let middle = if before.current is Some && told.is_prefix_of(before.state().told) {
        before.state().told
    } else if exists|i: int|
        0 <= i < before.waiting.len() && told.is_prefix_of((#[trigger] before.waiting[i]).told) {
        let i = choose|i: int|
            0 <= i < before.waiting.len() && told.is_prefix_of((#[trigger] before.waiting[i]).told);
        before.waiting[i].told
    } else {
        let i = choose|i: int|
            0 <= i < before.finished.len() && told.is_prefix_of(
                (#[trigger] before.finished[i]).told,
            );
        before.finished[i].told
    };
    assert(after.has_told(middle));
    lemma_has_told(after, told);
    if after.current is Some && middle.is_prefix_of(after.state().told) {
        assert(told.is_prefix_of(after.state().told));
    } else if exists|i: int|
        0 <= i < after.waiting.len() && middle.is_prefix_of((#[trigger] after.waiting[i]).told) {
        let i = choose|i: int|
            0 <= i < after.waiting.len() && middle.is_prefix_of((#[trigger] after.waiting[i]).told);
        assert(told.is_prefix_of(after.waiting[i].told));
    } else {
        let i = choose|i: int|
            0 <= i < after.finished.len() && middle.is_prefix_of(
                (#[trigger] after.finished[i]).told,
            );
        assert(told.is_prefix_of(after.finished[i].told));
    }
}

/// If nothing is lost, no fork is.
pub proof fn lemma_has_fork_stays(
    before: ResolverView,
    after: ResolverView,
    listing: Listing,
    f: int,
)
    requires
        loses_nothing(before, after),
        after.ledger().extends(before.ledger()),
        before.has_fork(listing, f),
    ensures
        after.has_fork(listing, f),
{
    let told = if before.current is Some && told_carries(
        before.ledger(),
        before.state().told,
        listing,
        f,
    ) {
        before.state().told
    } else if exists|i: int|
        0 <= i < before.waiting.len() && told_carries(
            before.ledger(),
            (#[trigger] before.waiting[i]).told,
            listing,
            f,
        ) {
        let i = choose|i: int|
            0 <= i < before.waiting.len() && told_carries(
                before.ledger(),
                (#[trigger] before.waiting[i]).told,
                listing,
                f,
            );
        before.waiting[i].told
    } else {
        let i = choose|i: int|
            0 <= i < before.finished.len() && told_carries(
                before.ledger(),
                (#[trigger] before.finished[i]).told,
                listing,
                f,
            );
        before.finished[i].told
    };
    assert(after.has_told(told));
    if after.current is Some && told.is_prefix_of(after.state().told) {
        lemma_told_carries_stays(
            before.ledger(),
            after.ledger(),
            told,
            after.state().told,
            listing,
            f,
        );
    } else if exists|i: int|
        0 <= i < after.waiting.len() && told.is_prefix_of((#[trigger] after.waiting[i]).told) {
        let i = choose|i: int|
            0 <= i < after.waiting.len() && told.is_prefix_of((#[trigger] after.waiting[i]).told);
        lemma_told_carries_stays(
            before.ledger(),
            after.ledger(),
            told,
            after.waiting[i].told,
            listing,
            f,
        );
    } else {
        let i = choose|i: int|
            0 <= i < after.finished.len() && told.is_prefix_of((#[trigger] after.finished[i]).told);
        lemma_told_carries_stays(
            before.ledger(),
            after.ledger(),
            told,
            after.finished[i].told,
            listing,
            f,
        );
    }
}

/// If nothing is lost and nothing is listed, everything is still there.
pub proof fn lemma_forks_stay(before: ResolverView, after: ResolverView)
    requires
        loses_nothing(before, after),
        after.ledger().extends(before.ledger()),
        after.listed == before.listed,
        before.keeps_everything(),
    ensures
        after.keeps_everything(),
{
    lemma_told_stays(before, after, initial_view().told);
    assert forall|a: int, f: int|
        #![trigger after.has_fork(after.listed[a], f)]
        0 <= a < after.listed.len() && 0 <= f < forked(
            after.listed[a].dependencies,
            after.universal,
        ).len() implies after.has_fork(after.listed[a], f) by {
        assert(before.has_fork(before.listed[a], f));
        lemma_has_fork_stays(before, after, before.listed[a], f);
    }
}

/// With the ledger going on, the other states stay sound.
pub proof fn lemma_others_stay(
    before: ResolverView,
    after: ResolverView,
    pending: Option<(u64, VersionKey)>,
)
    requires
        before.states_sound(pending),
        after.ledger().extends(before.ledger()),
    ensures
        forall|i: int|
            0 <= i < before.waiting.len() ==> state_sound(
                after.ledger(),
                #[trigger] before.waiting[i],
                None,
            ),
        forall|i: int|
            0 <= i < before.finished.len() ==> solved_sound(
                after.ledger(),
                #[trigger] before.finished[i],
            ),
{
    assert forall|i: int| 0 <= i < before.waiting.len() implies state_sound(
        after.ledger(),
        #[trigger] before.waiting[i],
        None,
    ) by {
        lemma_state_sound_stays(before.ledger(), after.ledger(), before.waiting[i], None);
    }
    assert forall|i: int| 0 <= i < before.finished.len() implies solved_sound(
        after.ledger(),
        #[trigger] before.finished[i],
    ) by {
        let state = before.finished[i];
        lemma_backed_stays(
            before.ledger(),
            after.ledger(),
            state.pins,
            state.pins,
            state.told,
        );
    }
}

} // verus!
