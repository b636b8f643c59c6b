use vstd::prelude::*;

use crate::collections::{forms, Keyed, KeyedSet};
use crate::dist::ResolvedDist;
use crate::forks::{dependency_list, Dependency, DependencyView};
use crate::package::{PackageTable, PackageView, PubGrubPackage, PubGrubPython};
use crate::pep440::{min_version, min_version_parts, to_pep440};
use crate::range::{Range, Segment};
use crate::resolution::{
    accounted, all_recorded, has_edge, has_edge_written, into_resolution, solved_forms,
    solved_packages, FilePins, NamesKey, Resolution, VersionsKey,
};
use crate::solver::{
    awaiting, candidates, decided, decides, dependency_views, disciplined, lemma_follows,
    lemma_next_step, lemma_picked, mentioned, names, needed, picked, propagates,
    pubgrub_add_decision, pubgrub_add_package_version_dependencies, pubgrub_clone,
    pubgrub_custom_term, pubgrub_custom_version, pubgrub_from_dependency, pubgrub_init,
    pubgrub_no_versions, pubgrub_pick_highest_priority_pkg, pubgrub_prioritized_packages,
    pubgrub_unit_propagation, reached, ready, respected, settled, solution, told, NoSolution, Ranks,
    Solver, Told,
};
use crate::version::{Version, VersionKey, VersionParts};

verus! {

/// State that is used during unit propagation in the resolver.
pub struct SolveState {
    /// The state of the solver. Packages are known to it by their numbers.
    solver: Solver,
    /// The next package on which to run unit propagation.
    next: u64,
    /// The distributions that were chosen so far.
    pins: FilePins,
    /// Every dependency that was found so far, in the order in which they were found. They
    /// determine which package is considered next.
    priorities: Vec<(u64, Range)>,
    /// The packages whose dependencies were already retrieved, each with its version.
    added_dependencies: KeyedSet<(u64, Version)>,
}

/// What a [`SolveState`] holds.
#[verifier::ext_equal]
pub struct SolveView {
    pub told: Seq<Told>,
    pub next: u64,
    pub pins: Map<(Seq<char>, VersionKey), ResolvedDist>,
    pub priorities: Seq<(u64, Seq<Segment>)>,
    pub added_dependencies: Set<(u64, VersionKey)>,
}

/// Whether each entry has a package with a number below `n`.
pub open spec fn numbers_below(entries: Seq<(u64, Seq<Segment>)>, n: nat) -> bool {
    forall|i: int| 0 <= i < entries.len() ==> (#[trigger] entries[i]).0 < n
}

impl SolveView {
    /// The state after one more step of the solver.
    pub open spec fn tell(self, step: Told) -> SolveView {
        SolveView { told: self.told.push(step), ..self }
    }

    /// Whether the package that is next awaits a decision on a version in the range.
    pub open spec fn deciding(self, range: Seq<Segment>) -> bool {
        awaiting(self.told) == Some((self.next, range))
    }

    /// Whether unit propagation is due, from the next package on.
    pub open spec fn due(self) -> bool {
        ready(self.told, self.next)
    }

    /// Whether the state fits a table of `n` packages.
    pub open spec fn fits(self, n: nat) -> bool {
        &&& accounted(self.told, n)
        &&& self.told.len() > 0
        &&& self.told[0] == (Told::Root { package: 0, version: min_version_parts() })
        &&& self.next < n
        &&& reached(self.told, self.next)
        &&& disciplined(self.told)
        &&& numbers_below(self.priorities, n)
    }
}

impl View for SolveState {
    type V = SolveView;

    closed spec fn view(&self) -> SolveView {
        SolveView {
            told: told(self.solver),
            next: self.next,
            pins: self.pins@,
            priorities: dependency_views(self.priorities@),
            added_dependencies: self.added_dependencies@,
        }
    }
}

/// The requests that are sent for packages before one of them is selected: a guess at what will
/// be needed for each package that is neither an extra nor given by a URL.
pub open spec fn prefetches(
    packages: Seq<(u64, Seq<Segment>)>,
    table: Seq<PackageView>,
) -> Seq<(Seq<char>, Seq<Segment>)>
    decreases packages.len(),
{
    if packages.len() == 0 {
        Seq::empty()
    } else {
        let before = prefetches(packages.drop_last(), table);
        let (package, range) = packages.last();
        match table[package as int] {
            PackageView::Package { name, extra: None, url: None, .. } => before.push((name, range)),
            _ => before,
        }
    }
}

/// The requests, each by the name and the range that it asks for.
pub open spec fn prefetched(requests: Seq<(String, Range)>) -> Seq<(Seq<char>, Seq<Segment>)> {
    requests.map_values(|request: (String, Range)| (request.0@, request.1@))
}

/// The requests to send for packages, each given by its number and its range.
pub fn prefetch_requests(
    packages: &Vec<(u64, Range)>,
    table: &PackageTable,
) -> (requests: Vec<(String, Range)>)
    requires
        forall|i: int| 0 <= i < packages@.len() ==> (#[trigger] packages@[i]).0 < table@.len(),
    ensures
        prefetched(requests@) == prefetches(dependency_views(packages@), table@),
{
    let ghost list = dependency_views(packages@);
    let mut requests: Vec<(String, Range)> = Vec::new();
    assert(prefetched(requests@) =~= prefetches(list.take(0), table@));
    for i in 0..packages.len()
        invariant
            list == dependency_views(packages@),
            forall|j: int| 0 <= j < packages@.len() ==> (#[trigger] packages@[j]).0 < table@.len(),
            prefetched(requests@) == prefetches(list.take(i as int), table@),
    {
        assert(list[i as int] == (packages@[i as int].0, packages@[i as int].1@));
        assert(list.take(i + 1).drop_last() =~= list.take(i as int));
        let package = table.get(packages[i].0);
        if let PubGrubPackage::Package { name, extra: None, url: None, .. } = &package {
            let ghost before = prefetched(requests@);
            let ghost more = (name@, packages@[i as int].1@);
            requests.push((name.clone(), packages[i].1.clone()));
            assert(prefetched(requests@) =~= before.push(more));
        }
    }
    assert(list.take(list.len() as int) =~= list);
    requests
}

/// What a resolution of a finished solver holds.
#[verifier::ext_equal]
pub struct ResolutionView {
    pub packages: Set<(PackageView, VersionKey)>,
    pub dependencies: Set<(NamesKey, VersionsKey)>,
    pub pins: Map<(Seq<char>, VersionKey), ResolvedDist>,
}

impl View for Resolution {
    type V = ResolutionView;

    open spec fn view(&self) -> ResolutionView {
        ResolutionView {
            packages: self.packages@,
            dependencies: self.dependencies@,
            pins: self.pins@,
        }
    }
}

impl SolveView {
    /// Whether every package of the solution has a number below `n`.
    pub open spec fn solved_within(self, n: nat) -> bool {
        forall|i: int| 0 <= i < solution(self.told).len() ==> (#[trigger] solution(self.told)[i]).0 < n
    }

    /// The resolution of a state whose solver is finished.
    pub open spec fn resolution(self, table: Seq<PackageView>) -> ResolutionView {
        ResolutionView {
            packages: solved_packages(self.told, table).to_set(),
            dependencies: Set::new(
                |edge: (NamesKey, VersionsKey)| has_edge(self.told, table, edge),
            ),
            pins: self.pins,
        }
    }
}

/// The number of a package in a table: the one it has, or the next that is free.
pub open spec fn number_of(table: Seq<PackageView>, package: PackageView) -> u64 {
    if table.contains(package) {
        table.index_of(package) as u64
    } else {
        table.len() as u64
    }
}

/// The table with a package in it.
pub open spec fn with_package(table: Seq<PackageView>, package: PackageView) -> Seq<PackageView> {
    if table.contains(package) {
        table
    } else {
        table.push(package)
    }
}

/// The table with the packages of all dependencies in it.
pub open spec fn with_dependencies(
    table: Seq<PackageView>,
    dependencies: Seq<DependencyView>,
) -> Seq<PackageView>
    decreases dependencies.len(),
{
    if dependencies.len() == 0 {
        table
    } else {
        with_package(
            with_dependencies(table, dependencies.drop_last()),
            dependencies.last().package,
        )
    }
}

/// The dependencies, each by the number of its package in the table.
pub open spec fn numbered(
    table: Seq<PackageView>,
    dependencies: Seq<DependencyView>,
) -> Seq<(u64, Seq<Segment>)> {
    dependencies.map_values(
        |dependency: DependencyView| (number_of(table, dependency.package), dependency.range),
    )
}

/// The number of a package that is in a table at `id`.
pub proof fn lemma_number(table: Seq<PackageView>, id: u64)
    requires
        table.no_duplicates(),
        id < table.len(),
    ensures
        number_of(table, table[id as int]) == id,
{
    let i = table.index_of(table[id as int]);
}

/// Enter the packages of all dependencies into the table.
pub fn number_dependencies(
    table: &mut PackageTable,
    dependencies: &Vec<Dependency>,
) -> (numbers: Vec<(u64, Range)>)
    requires
        old(table).wf(),
    ensures
        final(table).wf(),
        old(table)@.is_prefix_of(final(table)@),
        final(table)@ == with_dependencies(old(table)@, dependency_list(dependencies@)),
        dependency_views(numbers@) == numbered(final(table)@, dependency_list(dependencies@)),
        forall|i: int|
            0 <= i < numbers@.len() ==> (#[trigger] numbers@[i]).0 < final(table)@.len()
                && final(table)@[numbers@[i].0 as int] == dependencies@[i].package@,
        numbers@.len() == dependencies@.len(),
{
    let ghost list = dependency_list(dependencies@);
    let ghost start = table@;
    let mut numbers: Vec<(u64, Range)> = Vec::new();
    for i in 0..dependencies.len()
        invariant
            list == dependency_list(dependencies@),
            table.wf(),
            start.is_prefix_of(table@),
            table@ == with_dependencies(start, list.take(i as int)),
            numbers@.len() == i,
            forall|j: int|
                0 <= j < i ==> (#[trigger] numbers@[j]).0 < table@.len()
                    && table@[numbers@[j].0 as int] == dependencies@[j].package@
                    && numbers@[j].1@ == dependencies@[j].range@,
    {
        assert(list[i as int] == dependencies@[i as int]@);
        assert(list.take(i + 1).drop_last() =~= list.take(i as int));
        let number: u64 = table.intern(&dependencies[i].package);
        numbers.push((number, dependencies[i].range.clone()));
    }
    proof {
        assert(list.take(list.len() as int) =~= list);
        let left = dependency_views(numbers@);
        let right = numbered(table@, list);
        assert forall|i: int| 0 <= i < left.len() implies #[trigger] left[i] == right[i] by {
            assert(numbers@[i].0 < table@.len());
            assert(list[i] == dependencies@[i]@);
            lemma_number(table@, numbers@[i].0);
        }
        assert(left =~= right);
    }
    numbers
}

impl SolveState {
    /// Whether the state is well formed, with a table of `n` packages.
    pub closed spec fn wf(&self, n: nat) -> bool {
        &&& self@.fits(n)
        &&& self.pins.wf()
        &&& self.added_dependencies.wf()
    }

    /// What a well-formed state promises of what it holds.
    pub proof fn lemma_wf(&self, n: nat)
        requires
            self.wf(n),
        ensures
            self@.fits(n),
    {
    }

    /// A state that fits a table fits a longer one.
    pub proof fn lemma_longer_table(&self, n: nat, m: nat)
        requires
            self.wf(n),
            n <= m,
        ensures
            self.wf(m),
    {
        assert forall|package: u64| #[trigger] mentioned(self@.told, package) implies package
            < m by {}
        assert forall|i: int| 0 <= i < self@.priorities.len() implies (
        #[trigger] self@.priorities[i]).0 < m by {
            assert(self@.priorities[i].0 < n);
        }
    }

    /// The state from which a resolution starts, for the root package with number 0.
    pub fn new() -> (state: Self)
        ensures
            state.wf(1),
            state@.due(),
            state@ == initial_view(),
    {
        let version = min_version();
        let state = SolveState {
            solver: pubgrub_init(0, to_pep440(&version)),
            next: 0,
            pins: FilePins::new(),
            priorities: Vec::new(),
            added_dependencies: KeyedSet::new(),
        };
        proof {
            assert(state@.priorities =~= Seq::empty());
            assert(state@ =~= initial_view());
            let history = state@.told;
            assert forall|package: u64| #[trigger] mentioned(history, package) implies package
                < 1 by {
                let i = choose|i: int|
                    0 <= i < history.len() && #[trigger] names(history[i], package);
            }
            assert forall|package: u64, version: VersionParts| #[trigger]
                decided(history, package, version) implies version.valid()
                && version.edge is Within by {
                let i = choose|i: int|
                    0 <= i < history.len() && #[trigger] decides(
                        history[i],
                        package,
                        version,
                    );
            }
            assert(reached(history, 0));
            assert(history.drop_last() =~= Seq::empty());
            assert(disciplined(history.drop_last()));
        }
        state
    }

    /// The number of the next package.
    pub fn next(&self) -> (next: u64)
        ensures
            next == self@.next,
    {
        self.next
    }

    /// Every dependency that was found so far, by the number of its package.
    pub fn priorities(&self) -> (priorities: &Vec<(u64, Range)>)
        ensures
            dependency_views(priorities@) == self@.priorities,
    {
        &self.priorities
    }

    /// Run unit propagation, from the next package on.
    pub(crate) fn propagate(&mut self, Ghost(n): Ghost<nat>) -> (outcome: Result<(), NoSolution>)
        requires
            old(self).wf(n),
            old(self)@.due(),
        ensures
            outcome is Ok ==> final(self).wf(n) && settled(final(self)@.told),
            final(self)@ == old(self)@.tell(Told::Propagate { package: old(self)@.next }),
            outcome is Ok <==> propagates(old(self)@.told, old(self)@.next),
            outcome matches Err(error) ==> error.told@ == old(self)@.told && error.package@
                == old(self)@.next,
    {
        let ghost steps = self@.told;
        proof {
            lemma_next_step(self@.told, Told::Propagate { package: self.next });
            if propagates(self@.told, self.next) {
                lemma_follows(self@.told, Told::Propagate { package: self.next });
            }
        }
        match pubgrub_unit_propagation(&mut self.solver, self.next) {
            Ok(_) => Ok(()),
            Err(derivation) => {
                Err(NoSolution { derivation, told: Ghost(steps), package: Ghost(self.next) })
            },
        }
    }

    /// Visit the set of candidates prior to selection. This allows metadata to be fetched for all
    /// of the packages in parallel. Returns the names and ranges to ask for.
    pub fn pre_visit(&self, table: &PackageTable) -> (requests: Vec<(String, Range)>)
        requires
            self.wf(table@.len()),
        ensures
            prefetched(requests@) == prefetches(candidates(self@.told), table@),
    {
        let packages = pubgrub_prioritized_packages(&self.solver);
        let ghost list = dependency_views(packages@);
        assert(list == candidates(self@.told));
        assert forall|i: int| 0 <= i < packages@.len() implies (#[trigger] packages@[i]).0
            < table@.len() by {
            assert(mentioned(self@.told, packages@[i].0));
        }
        prefetch_requests(&packages, table)
    }

    /// Pick the package of the highest rank that is not decided on yet as the next one. Returns
    /// the range that it has to be in, or nothing if everything is decided on.
    pub(crate) fn pick(&mut self, ranks: &Ranks, Ghost(n): Ghost<nat>) -> (choice: Option<Range>)
        requires
            old(self).wf(n),
            settled(old(self)@.told),
        ensures
            final(self).wf(n),
            choice is None ==> respected(old(self)@.told, solution(final(self)@.told)) && needed(
                old(self)@.told,
                solution(final(self)@.told),
            ),
            final(self)@ == old(self)@.pick(ranks.ranks@),
            match choice {
                Some(range) => picked(old(self)@.told, ranks.ranks@) == Some(
                    (final(self)@.next, range@),
                ) && final(self)@.deciding(range@) && (final(self)@.next == 0 ==> range.has(
                    min_version_parts().key(),
                )),
                None => picked(old(self)@.told, ranks.ranks@) is None,
            },
    {
        proof {
            lemma_next_step(self@.told, Told::Pick { ranks: ranks.ranks@ });
            lemma_picked(self@.told, ranks.ranks@);
            lemma_follows(self@.told, Told::Pick { ranks: ranks.ranks@ });
        }
        match pubgrub_pick_highest_priority_pkg(&mut self.solver, ranks) {
            Some((package, range)) => {
                self.next = package;
                Some(range)
            },
            None => None,
        }
    }

    /// Rule out every version in the range for the next package: there is none.
    pub(crate) fn no_versions(&mut self, range: &Range, Ghost(n): Ghost<nat>)
        requires
            old(self).wf(n),
            old(self)@.deciding(range@),
        ensures
            final(self).wf(n),
            final(self)@.due(),
            final(self)@ == old(self)@.tell(
                Told::NoVersions { package: old(self)@.next, range: range@ },
            ),
    {
        proof {
            let step = Told::NoVersions { package: self.next, range: range@ };
            lemma_next_step(self@.told, step);
            lemma_follows(self@.told, step);
        }
        pubgrub_no_versions(&mut self.solver, self.next, range);
    }

    /// Rule out every version in the range for the next package: the package is unavailable.
    pub(crate) fn unavailable_package(&mut self, range: &Range, reason: usize, Ghost(n): Ghost<nat>)
        requires
            old(self).wf(n),
            old(self)@.deciding(range@),
        ensures
            final(self).wf(n),
            final(self)@.due(),
            final(self)@ == old(self)@.tell(
                Told::UnavailablePackage { package: old(self)@.next, range: range@, reason },
            ),
    {
        proof {
            let step = Told::UnavailablePackage { package: self.next, range: range@, reason };
            lemma_next_step(self@.told, step);
            lemma_follows(self@.told, step);
        }
        pubgrub_custom_term(&mut self.solver, self.next, range, reason);
    }

    /// Rule out a version for the next package.
    pub(crate) fn unavailable_version(
        &mut self,
        version: &Version,
        range: &Range,
        reason: usize,
        Ghost(n): Ghost<nat>,
    )
        requires
            old(self).wf(n),
            version@.valid(),
            old(self)@.deciding(range@),
            range.has(version@.key()),
        ensures
            final(self).wf(n),
            final(self)@.due(),
            final(self)@ == old(self)@.tell(
                Told::UnavailableVersion { package: old(self)@.next, version: version@, reason },
            ),
    {
        proof {
            let step = Told::UnavailableVersion {
                package: self.next,
                version: version@,
                reason,
            };
            lemma_next_step(self@.told, step);
            lemma_follows(self@.told, step);
        }
        pubgrub_custom_version(&mut self.solver, self.next, to_pep440(version), reason);
    }

    /// Decide on a version of the next package that only some Python versions can use: it depends
    /// on them, both for the interpreter that is installed and for the target.
    pub(crate) fn require_python(
        &mut self,
        version: &Version,
        python: &Range,
        range: &Range,
        table: &mut PackageTable,
    )
        requires
            old(self).wf(old(table)@.len()),
            old(table).wf(),
            old(table)@[old(self)@.next as int].name() is Some,
            version@.valid(),
            version@.edge is Within,
            old(self)@.deciding(range@),
            range.has(version@.key()),
        ensures
            final(self).wf(final(table)@.len()),
            final(self)@.due(),
            final(table).wf(),
            final(table)@ == with_pythons(old(table)@),
            old(table)@.is_prefix_of(final(table)@),
            final(self)@ == old(self)@.require_python(version@, python@, final(table)@),
    {
        let ghost before = self@;
        let ghost start = table@;
        let installed: u64 = table.intern(&PubGrubPackage::Python(PubGrubPython::Installed));
        let ghost middle = table@;
        let target: u64 = table.intern(&PubGrubPackage::Python(PubGrubPython::Target));
        proof {
            assert(start[self.next as int] == table@[self.next as int]);
            lemma_number(table@, installed);
            lemma_number(table@, target);
            self.lemma_longer_table(start.len(), table@.len());
        }
        let ghost first = Told::Dependency {
            package: self.next,
            version: version@,
            dependency: installed,
            range: python@,
        };
        let ghost second = Told::Dependency {
            package: self.next,
            version: version@,
            dependency: target,
            range: python@,
        };
        let ghost third = Told::Decision { package: self.next, version: version@ };
        proof {
            lemma_next_step(before.told, first);
            lemma_follows(before.told, first);
            lemma_next_step(before.told.push(first), second);
            lemma_follows(before.told.push(first), second);
            lemma_next_step(before.told.push(first).push(second), third);
            lemma_follows(before.told.push(first).push(second), third);
        }
        let outside = to_pep440(version);
        pubgrub_from_dependency(&mut self.solver, self.next, outside, installed, python);
        let outside = to_pep440(version);
        pubgrub_from_dependency(&mut self.solver, self.next, outside, target, python);
        pubgrub_add_decision(&mut self.solver, self.next, to_pep440(version));
    }

    /// Note that the dependencies of the next package at a version are retrieved. Returns whether
    /// they were not before.
    pub(crate) fn note_version(&mut self, version: &Version, Ghost(n): Ghost<nat>) -> (added: bool)
        requires
            old(self).wf(n),
            version@.valid(),
        ensures
            final(self).wf(n),
            final(self)@ == old(self)@.note(version@),
            added == !old(self)@.added_dependencies.contains((old(self)@.next, version@.key())),
    {
        let pair = (self.next, version.clone());
        assert(pair.key() == (self.next, version@.key()));
        self.added_dependencies.insert(pair)
    }

    /// Decide on a version of the next package.
    pub(crate) fn decide(&mut self, version: &Version, range: &Range, Ghost(n): Ghost<nat>)
        requires
            old(self).wf(n),
            version@.valid(),
            version@.edge is Within,
            old(self)@.deciding(range@),
            range.has(version@.key()),
        ensures
            final(self).wf(n),
            final(self)@.due(),
            final(self)@ == old(self)@.tell(
                Told::Decision { package: old(self)@.next, version: version@ },
            ),
    {
        proof {
            let step = Told::Decision { package: self.next, version: version@ };
            lemma_next_step(self@.told, step);
            lemma_follows(self@.told, step);
        }
        pubgrub_add_decision(&mut self.solver, self.next, to_pep440(version));
    }

    /// Add the next package at a version, with its dependencies.
    pub(crate) fn add_dependencies(
        &mut self,
        version: &Version,
        range: &Range,
        dependencies: &Vec<(u64, Range)>,
        Ghost(n): Ghost<nat>,
    )
        requires
            old(self).wf(n),
            version@.valid(),
            version@.edge is Within,
            old(self)@.deciding(range@),
            range.has(version@.key()),
            forall|i: int|
                0 <= i < dependencies@.len() ==> (#[trigger] dependencies@[i]).0 != old(self)@.next
                    && dependencies@[i].0 < n,
        ensures
            final(self).wf(n),
            final(self)@.due(),
            final(self)@ == old(self)@.tell(
                Told::Version {
                    package: old(self)@.next,
                    version: version@,
                    dependencies: dependency_views(dependencies@),
                },
            ),
    {
        let ghost step = Told::Version {
            package: self.next,
            version: version@,
            dependencies: dependency_views(dependencies@),
        };
        proof {
            lemma_next_step(self@.told, step);
            lemma_follows(self@.told, step);
            assert forall|package: u64| #[trigger] mentioned(
                self@.told.push(step),
                package,
            ) implies package < n by {
                if names(step, package) {
                    let views = dependency_views(dependencies@);
                    let i = choose|i: int|
                        0 <= i < views.len() && (#[trigger] views[i]).0 == package;
                    assert(dependencies@[i].0 == package);
                }
            }
        }
        pubgrub_add_package_version_dependencies(
            &mut self.solver,
            self.next,
            to_pep440(version),
            dependencies,
        );
    }

    /// Note a dependency, which determines the priority of its package.
    pub(crate) fn note_priority(&mut self, package: u64, range: &Range, Ghost(n): Ghost<nat>)
        requires
            old(self).wf(n),
            package < n,
        ensures
            final(self).wf(n),
            final(self)@ == (SolveView {
                priorities: old(self)@.priorities.push((package, range@)),
                ..old(self)@
            }),
    {
        let ghost before = self@;
        self.priorities.push((package, range.clone()));
        proof {
            assert(self@.priorities =~= before.priorities.push((package, range@)));
            assert forall|i: int| 0 <= i < self@.priorities.len() implies (
            #[trigger] self@.priorities[i]).0 < n by {
                if i < before.priorities.len() {
                    assert(before.priorities[i].0 < n);
                }
            }
        }
    }

    /// Pin a package at a version to a distribution.
    pub(crate) fn pin(
        &mut self,
        name: &String,
        version: &Version,
        dist: ResolvedDist,
        Ghost(n): Ghost<nat>,
    )
        requires
            old(self).wf(n),
            version@.valid(),
        ensures
            final(self).wf(n),
            final(self)@ == (SolveView {
                pins: old(self)@.pins.insert((name@, version@.key()), dist),
                ..old(self)@
            }),
    {
        self.pins.insert(name, version, dist);
    }

    /// The same state again.
    pub(crate) fn duplicate(&self, Ghost(n): Ghost<nat>) -> (copy: Self)
        requires
            self.wf(n),
        ensures
            copy.wf(n),
            copy@ == self@,
    {
        let mut priorities: Vec<(u64, Range)> = Vec::new();
        for i in 0..self.priorities.len()
            invariant
                dependency_views(priorities@) == self@.priorities.take(i as int),
        {
            let ghost before = dependency_views(priorities@);
            priorities.push((self.priorities[i].0, self.priorities[i].1.clone()));
            assert(dependency_views(priorities@) =~= before.push(self@.priorities[i as int]));
            assert(dependency_views(priorities@) =~= self@.priorities.take(i + 1));
        }
        let copy = SolveState {
            solver: pubgrub_clone(&self.solver),
            next: self.next,
            pins: self.pins.duplicate(),
            priorities,
            added_dependencies: self.added_dependencies.duplicate(),
        };
        assert(copy@.priorities =~= self@.priorities);
        copy
    }

    /// The resolution that a finished state stands for.
    pub fn into_resolution(self, table: &PackageTable) -> (resolution: Resolution)
        requires
            self.wf(table@.len()),
            table.wf(),
        ensures
            resolution.wf(),
            resolution@ == self@.resolution(table@),
            self@.solved_within(table@.len()),
            all_recorded(self@.told),
            forms(resolution.packages.in_order()) == solved_forms(self@.told, table@),
            forall|i: int|
                0 <= i < resolution.dependencies.in_order().len() ==> has_edge_written(
                    self@.told,
                    table@,
                    (#[trigger] resolution.dependencies.in_order()[i]).form(),
                ),
            forall|i: int|
                #![trigger solution(self@.told)[i]]
                0 <= i < solution(self@.told).len() ==> decided(
                    self@.told,
                    solution(self@.told)[i].0,
                    solution(self@.told)[i].1,
                ),
            forall|i: int, j: int|
                0 <= i < j < solution(self@.told).len() ==> (#[trigger] solution(self@.told)[i]).0
                    != (#[trigger] solution(self@.told)[j]).0,
            forall|package: PackageView, one: VersionKey, other: VersionKey|
                #![trigger resolution@.packages.contains((package, one)), resolution@.packages.contains((package, other))]
                resolution@.packages.contains((package, one)) && resolution@.packages.contains(
                    (package, other),
                ) ==> one == other,
    {
        let ghost view = self@;
        let resolution = into_resolution(self.solver, table, self.pins);
        assert(resolution@.dependencies =~= view.resolution(table@).dependencies);
        resolution
    }
}

/// The state from which a resolution starts.
pub open spec fn initial_view() -> SolveView {
    SolveView {
        told: seq![Told::Root { package: 0, version: min_version_parts() }],
        next: 0,
        pins: Map::empty(),
        priorities: Seq::empty(),
        added_dependencies: Set::empty(),
    }
}

/// The table with both Python packages in it.
pub open spec fn with_pythons(table: Seq<PackageView>) -> Seq<PackageView> {
    with_package(
        with_package(table, PackageView::Python(PubGrubPython::Installed)),
        PackageView::Python(PubGrubPython::Target),
    )
}

impl SolveView {
    /// The state after a package was picked, if there was one to pick.
    pub open spec fn pick(self, ranks: Seq<Option<(u32, usize)>>) -> SolveView {
        SolveView {
            told: self.told.push(Told::Pick { ranks }),
            next: match picked(self.told, ranks) {
                Some((package, _)) => package,
                None => self.next,
            },
            ..self
        }
    }

    /// The state with the next package noted as added at a version.
    pub open spec fn note(self, version: VersionParts) -> SolveView {
        SolveView {
            added_dependencies: self.added_dependencies.insert((self.next, version.key())),
            ..self
        }
    }

    /// The state after deciding on a version of the next package that depends on Python.
    pub open spec fn require_python(
        self,
        version: VersionParts,
        python: Seq<Segment>,
        table: Seq<PackageView>,
    ) -> SolveView {
        let installed = number_of(table, PackageView::Python(PubGrubPython::Installed));
        let target = number_of(table, PackageView::Python(PubGrubPython::Target));
        self.tell(
            Told::Dependency {
                package: self.next,
                version,
                dependency: installed,
                range: python,
            },
        ).tell(
            Told::Dependency { package: self.next, version, dependency: target, range: python },
        ).tell(Told::Decision { package: self.next, version })
    }
}

} // verus!
