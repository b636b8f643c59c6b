use std::cmp::Reverse;

use pep440_rs::Version as OutsideVersion;
use pubgrub::{
    DerivationTree, Incompatibility, Kind, OfflineDependencyProvider, Ranges, State, Term,
};
use vstd::prelude::*;

use crate::pep440::written;
use crate::range::{segments_have, Range, Segment};
use crate::version::{VersionKey, VersionParts};

verus! {

/// The state of `pubgrub`, over packages that are known by their numbers.
#[verifier::external_body]
pub struct Solver {
    state: State<OfflineDependencyProvider<u64, Ranges<OutsideVersion>>>,
}

/// The derivation tree of `pubgrub`, with packages by their numbers.
#[verifier::external_body]
pub struct Derivation {
    pub tree: DerivationTree<u64, Ranges<OutsideVersion>, String>,
}

/// Why there is no solution: the derivation tree, with the steps that the solver had been told and
/// the package from which unit propagation then came upon it.
pub struct NoSolution {
    pub derivation: Derivation,
    pub told: Ghost<Seq<Told>>,
    pub package: Ghost<u64>,
}

/// A step that changed the state of a solver.
pub enum Told {
    /// The package and the version that are to be solved for.
    Root { package: u64, version: VersionParts },
    /// Unit propagation, from a package on.
    Propagate { package: u64 },
    /// The choice of the package to decide on, by the ranks of the packages.
    Pick { ranks: Seq<Option<(u32, usize)>> },
    /// The package has no version in the range.
    NoVersions { package: u64, range: Seq<Segment> },
    /// The package cannot be had in the range, for a reason that is known by its number.
    UnavailablePackage { package: u64, range: Seq<Segment>, reason: usize },
    /// The package cannot be had at the version, for a reason that is known by its number.
    UnavailableVersion { package: u64, version: VersionParts, reason: usize },
    /// The package at the version depends on another package in the range.
    Dependency { package: u64, version: VersionParts, dependency: u64, range: Seq<Segment> },
    /// The package at the version has these dependencies, and is decided on if they allow it.
    Version { package: u64, version: VersionParts, dependencies: Seq<(u64, Seq<Segment>)> },
    /// The package is decided on at the version.
    Decision { package: u64, version: VersionParts },
}

/// That a package, in a range of versions, depends on another package in a range.
pub struct DependencyRecord {
    pub package: u64,
    pub range: Range,
    pub dependency: u64,
    pub dependency_range: Range,
}

/// What a [`DependencyRecord`] holds.
pub struct RecordView {
    pub package: u64,
    pub range: Seq<Segment>,
    pub dependency: u64,
    pub dependency_range: Seq<Segment>,
}

impl View for DependencyRecord {
    type V = RecordView;

    open spec fn view(&self) -> RecordView {
        RecordView {
            package: self.package,
            range: self.range@,
            dependency: self.dependency,
            dependency_range: self.dependency_range@,
        }
    }
}

/// The rank of each package, by its number. A package with the higher first number is decided on
/// first, and among those one with the lower second number.
pub struct Ranks {
    pub ranks: Vec<Option<(u32, usize)>>,
}

impl Ranks {
    /// The rank of a package; that of a package without one is the lowest there is.
    pub open spec fn rank_of(ranks: Seq<Option<(u32, usize)>>, package: u64) -> (u32, usize) {
        if package < ranks.len() && ranks[package as int] is Some {
            ranks[package as int]->0
        } else {
            (0, usize::MAX)
        }
    }

    /// The rank of a package.
    pub fn rank(&self, package: u64) -> (rank: (u32, usize))
        ensures
            rank == Self::rank_of(self.ranks@, package),
    {
        let length: usize = self.ranks.len();
        if package < length as u64 {
            match self.ranks[package as usize] {
                Some(rank) => rank,
                None => (0, usize::MAX),
            }
        } else {
            (0, usize::MAX)
        }
    }
}

/// Every step that changed the state of the solver, from the first on.
pub uninterp spec fn told(solver: Solver) -> Seq<Told>;

/// Whether unit propagation from a package on succeeds, after the given steps.
pub uninterp spec fn propagates(told: Seq<Told>, package: u64) -> bool;

/// The undecided packages with a positive term that changed since the last decision, each with the
/// range of its term, after the given steps.
pub uninterp spec fn candidates(told: Seq<Told>) -> Seq<(u64, Seq<Segment>)>;

/// The package of the highest rank that is not decided on, with its range, after the given steps.
pub uninterp spec fn picked(
    told: Seq<Told>,
    ranks: Seq<Option<(u32, usize)>>,
) -> Option<(u64, Seq<Segment>)>;

/// The packages that are decided on, each with its version, after the given steps.
pub uninterp spec fn solution(told: Seq<Told>) -> Seq<(u64, VersionParts)>;

/// What each incompatibility of a package records of dependencies, after the given steps.
pub uninterp spec fn dependency_records(told: Seq<Told>, package: u64) -> Seq<Option<RecordView>>;

/// The package that was picked and that is not settled yet, with its range: since it was picked,
/// nothing but dependencies was told.
pub open spec fn awaiting(told: Seq<Told>) -> Option<(u64, Seq<Segment>)>
    decreases told.len(),
{
    if told.len() == 0 {
        None
    } else {
        match told.last() {
            Told::Pick { ranks } => picked(told.drop_last(), ranks),
            Told::Dependency { .. } => awaiting(told.drop_last()),
            _ => None,
        }
    }
}

/// Whether the package at the version is in the range that the solver waits for.
pub open spec fn awaits(told: Seq<Told>, package: u64, version: VersionParts) -> bool {
    awaiting(told) matches Some((chosen, range)) && chosen == package && segments_have(
        range,
        version.key(),
    )
}

/// Whether the step picked the package.
pub open spec fn picks(told: Seq<Told>, i: int, package: u64) -> bool {
    told[i] matches Told::Pick { ranks } && picked(told.take(i), ranks) matches Some((chosen, _))
        && chosen == package
}

/// Whether the package is the root, or was picked at some step.
pub open spec fn reached(told: Seq<Told>, package: u64) -> bool {
    ||| exists|i: int| 0 <= i < told.len() && #[trigger] picks(told, i, package)
    ||| told.len() > 0 && (told[0] matches Told::Root { package: root, .. } && root == package)
}

/// Whether the step names the package as the root or as a dependency.
pub open spec fn names(step: Told, package: u64) -> bool {
    match step {
        Told::Root { package: root, .. } => root == package,
        Told::Dependency { dependency, .. } => dependency == package,
        Told::Version { dependencies, .. } => exists|i: int|
            0 <= i < dependencies.len() && (#[trigger] dependencies[i]).0 == package,
        _ => false,
    }
}

/// Whether a step named the package as the root or as a dependency.
pub open spec fn mentioned(told: Seq<Told>, package: u64) -> bool {
    exists|i: int| 0 <= i < told.len() && #[trigger] names(told[i], package)
}

/// Whether the step decides on the package at the version, if its dependencies allow it.
pub open spec fn decides(step: Told, package: u64, version: VersionParts) -> bool {
    match step {
        Told::Version { package: subject, version: at, .. } => subject == package && at == version,
        Told::Decision { package: subject, version: at } => subject == package && at == version,
        _ => false,
    }
}

/// Whether a step decided on the package at the version.
pub open spec fn decided(told: Seq<Told>, package: u64, version: VersionParts) -> bool {
    exists|i: int| 0 <= i < told.len() && #[trigger] decides(told[i], package, version)
}

/// Whether the step says that the package, at the version at `key`, depends on the other one in the
/// range.
pub open spec fn tells(
    step: Told,
    package: u64,
    key: VersionKey,
    dependency: u64,
    range: Seq<Segment>,
) -> bool {
    match step {
        Told::Dependency { package: subject, version, dependency: on, range: within } => subject
            == package && version.key() == key && on == dependency && within == range,
        Told::Version { package: subject, version, dependencies } => subject == package
            && version.key() == key && dependencies.contains((dependency, range)),
        _ => false,
    }
}

/// Whether two sets of intervals hold the same versions.
pub open spec fn same_versions(left: Seq<Segment>, right: Seq<Segment>) -> bool {
    forall|key: VersionKey| #[trigger] segments_have(left, key) == segments_have(right, key)
}

/// Whether the record says that the package, at the version at `key`, depends on the other one in
/// the range.
pub open spec fn record_tells(
    record: Option<RecordView>,
    package: u64,
    key: VersionKey,
    dependency: u64,
    range: Seq<Segment>,
) -> bool {
    record matches Some(record) && record.package == package && segments_have(record.range, key)
        && record.dependency == dependency && same_versions(record.dependency_range, range)
}

/// Whether the records of a package hold every dependency of it that was told.
pub open spec fn records_all(
    records: Seq<Option<RecordView>>,
    told: Seq<Told>,
    package: u64,
) -> bool {
    forall|k: int, key: VersionKey, dependency: u64, range: Seq<Segment>|
        0 <= k < told.len() && #[trigger] tells(told[k], package, key, dependency, range)
            ==> exists|i: int|
            0 <= i < records.len() && #[trigger] record_tells(
                records[i],
                package,
                key,
                dependency,
                range,
            )
}

/// Whether the records hold no dependency that was not told.
pub open spec fn records_only(records: Seq<Option<RecordView>>, told: Seq<Told>) -> bool {
    forall|i: int, key: VersionKey|
        #![trigger records[i], segments_have((records[i]->0).range, key)]
        0 <= i < records.len() && records[i] is Some && segments_have((records[i]->0).range, key)
            ==> exists|k: int, range: Seq<Segment>|
            0 <= k < told.len() && #[trigger] tells(
                told[k],
                (records[i]->0).package,
                key,
                (records[i]->0).dependency,
                range,
            ) && same_versions((records[i]->0).dependency_range, range)
}

/// Whether the package is there, at a version in the range.
pub open spec fn provides(
    packages: Seq<(u64, VersionParts)>,
    package: u64,
    range: Seq<Segment>,
) -> bool {
    exists|i: int|
        0 <= i < packages.len() && (#[trigger] packages[i]).0 == package && segments_have(
            range,
            packages[i].1.key(),
        )
}

/// Whether the package is there, at the version.
pub open spec fn includes(
    packages: Seq<(u64, VersionParts)>,
    package: u64,
    version: VersionParts,
) -> bool {
    exists|i: int|
        0 <= i < packages.len() && (#[trigger] packages[i]).0 == package && packages[i].1.key()
            == version.key()
}

/// Whether the packages respect what the solver was told in a step: the root is there, what was
/// ruled out is not, and with a package at a version its dependencies are there too, each in its
/// range.
pub open spec fn respects(step: Told, packages: Seq<(u64, VersionParts)>) -> bool {
    match step {
        Told::Root { package, version } => includes(packages, package, version),
        Told::NoVersions { package, range } => !provides(packages, package, range),
        Told::UnavailablePackage { package, range, .. } => !provides(packages, package, range),
        Told::UnavailableVersion { package, version, .. } => !includes(packages, package, version),
        Told::Dependency { package, version, dependency, range } => includes(
            packages,
            package,
            version,
        ) ==> provides(packages, dependency, range),
        Told::Version { package, version, dependencies } => includes(packages, package, version)
            ==> forall|i: int|
            0 <= i < dependencies.len() ==> provides(
                packages,
                (#[trigger] dependencies[i]).0,
                dependencies[i].1,
            ),
        _ => true,
    }
}

/// Whether the packages respect everything that the solver was told.
pub open spec fn respected(told: Seq<Told>, packages: Seq<(u64, VersionParts)>) -> bool {
    forall|i: int| 0 <= i < told.len() ==> respects(#[trigger] told[i], packages)
}

/// Whether the step makes the package a dependency of one of the packages, at its version there.
pub open spec fn requires_package(
    step: Told,
    packages: Seq<(u64, VersionParts)>,
    package: u64,
) -> bool {
    match step {
        Told::Dependency { package: subject, version, dependency, .. } => dependency == package
            && includes(packages, subject, version),
        Told::Version { package: subject, version, dependencies } => includes(
            packages,
            subject,
            version,
        ) && exists|i: int|
            0 <= i < dependencies.len() && (#[trigger] dependencies[i]).0 == package,
        _ => false,
    }
}

/// Whether the package is the root, or a dependency of one of the packages at its version.
pub open spec fn is_needed(
    told: Seq<Told>,
    packages: Seq<(u64, VersionParts)>,
    package: u64,
) -> bool {
    ||| told[0] matches Told::Root { package: root, .. } && root == package
    ||| exists|k: int|
        0 <= k < told.len() && #[trigger] requires_package(told[k], packages, package)
}

/// Whether each of the packages is the root, or a dependency of one of them at its version.
pub open spec fn needed(told: Seq<Told>, packages: Seq<(u64, VersionParts)>) -> bool {
    forall|i: int|
        0 <= i < packages.len() ==> is_needed(told, packages, (#[trigger] packages[i]).0)
}

/// Whether unit propagation is due, from the package on: the solver was just set up, or the
/// package that was picked was just settled.
pub open spec fn ready(told: Seq<Told>, package: u64) -> bool {
    told.len() > 0 && match told.last() {
        Told::Root { package: root, .. } => root == package,
        Told::NoVersions { package: subject, .. } => subject == package,
        Told::UnavailablePackage { package: subject, .. } => subject == package,
        Told::UnavailableVersion { package: subject, .. } => subject == package,
        Told::Version { package: subject, .. } => subject == package,
        Told::Decision { package: subject, .. } => subject == package,
        _ => false,
    }
}

/// Whether a step follows those before it in the way that packages are decided on one by one:
/// after each unit propagation that succeeds a package is picked, then its dependencies may be
/// told, and then it is settled, which makes the next unit propagation due. To settle a package is
/// to rule out the range that it was picked with or a version in that range, or to decide on a
/// version in that range.
pub open spec fn follows(told: Seq<Told>, step: Told) -> bool {
    match step {
        Told::Root { .. } => told.len() == 0,
        Told::Propagate { package } => ready(told, package) && propagates(told, package),
        Told::Pick { .. } => told.len() > 0 && told.last() is Propagate,
        Told::NoVersions { package, range } => awaiting(told) == Some((package, range)),
        Told::UnavailablePackage { package, range, .. } => awaiting(told) == Some((package, range)),
        Told::UnavailableVersion { package, version, .. } => awaits(told, package, version),
        Told::Dependency { package, version, dependency, .. } => awaits(told, package, version)
            && dependency != package,
        Told::Version { package, version, dependencies } => awaits(told, package, version)
            && forall|i: int|
            0 <= i < dependencies.len() ==> (#[trigger] dependencies[i]).0 != package,
        Told::Decision { package, version } => awaits(told, package, version),
    }
}

/// Whether every step follows those before it.
pub open spec fn disciplined(told: Seq<Told>) -> bool
    decreases told.len(),
{
    told.len() == 0 || disciplined(told.drop_last()) && follows(told.drop_last(), told.last())
}

/// Whether a package can be picked: every package that was picked before is settled, and unit
/// propagation succeeded on everything that was told.
pub open spec fn settled(told: Seq<Told>) -> bool {
    &&& told.len() > 0
    &&& told.last() is Propagate
    &&& disciplined(told)
}

/// `State::init`: a solver for the version of the root package.
#[verifier::external_body]
pub(crate) fn pubgrub_init(package: u64, version: OutsideVersion) -> (solver: Solver)
    ensures
        told(solver) == seq![Told::Root { package, version: written(version) }],
{
    Solver { state: State::init(package, version) }
}

/// `State::unit_propagation` from a package on. Whether it succeeds depends on the steps so far.
/// Nothing is stated of the derivation tree that it fails with.
#[verifier::external_body]
pub(crate) fn pubgrub_unit_propagation(solver: &mut Solver, package: u64) -> (outcome: Result<
    (),
    Derivation,
>)
    requires
        disciplined(told(*old(solver))),
        ready(told(*old(solver)), package),
    ensures
        told(*final(solver)) == told(*old(solver)).push(Told::Propagate { package }),
        outcome is Ok <==> propagates(told(*old(solver)), package),
{
    let id = solver.state.package_store.alloc(package);
    solver.state.unit_propagation(id).map(|_| ()).map_err(|tree| Derivation { tree })
}

/// `PartialSolution::prioritized_packages`: the undecided packages with a positive term that
/// changed since the last decision. Each of them is the root or was named as a dependency.
#[verifier::external_body]
pub(crate) fn pubgrub_prioritized_packages(solver: &Solver) -> (packages: Vec<(u64, Range)>)
    ensures
        packages@.map_values(|entry: (u64, Range)| (entry.0, entry.1@)) == candidates(
            told(*solver),
        ),
        forall|i: int|
            0 <= i < packages@.len() ==> mentioned(told(*solver), (#[trigger] packages@[i]).0),
{
    let store = &solver.state.package_store;
    let packages = solver.state.partial_solution.prioritized_packages();
    packages.map(|(id, ranges)| (store[id], Range { ranges: ranges.clone() })).collect()
}

/// `PartialSolution::pick_highest_priority_pkg`: the undecided package of the highest rank, if
/// there is one, with the range of its term. That of the root package holds the root version,
/// which is all that is ever derived for it.
///
/// A package that is picked leaves the queue of the undecided ones. Settling it, followed by unit
/// propagation, decides on it, changes its term or backtracks, and in the latter two cases it is
/// queued again if its term is still positive. So if there is none to pick, every positive
/// derivation has a decision that satisfies it, and the decisions are a total solution: they
/// respect everything that the solver was told. A positive derivation of a package other than the
/// root rests on dependencies, so each decided package but the root is a dependency of another one.
#[verifier::external_body]
pub(crate) fn pubgrub_pick_highest_priority_pkg(
    solver: &mut Solver,
    ranks: &Ranks,
) -> (choice: Option<(u64, Range)>)
    requires
        settled(told(*old(solver))),
    ensures
        told(*final(solver)) == told(*old(solver)).push(Told::Pick { ranks: ranks.ranks@ }),
        picked(told(*old(solver)), ranks.ranks@) == match choice {
            Some((package, range)) => Some((package, range@)),
            None => None,
        },
        choice matches Some((package, _)) ==> mentioned(told(*old(solver)), package),
        choice matches Some((package, range)) ==> (told(*old(solver))[0] matches Told::Root {
            package: root,
            version,
        } ==> (root == package ==> range.has(version.key()))),
        choice is None ==> respected(told(*old(solver)), solution(told(*final(solver)))),
        choice is None ==> needed(told(*old(solver)), solution(told(*final(solver)))),
{
    let store = &solver.state.package_store;
    let choice = solver.state.partial_solution.pick_highest_priority_pkg(|id, _| {
        let rank = ranks.rank(store[id]);
        (rank.0, Reverse(rank.1))
    });
    choice.map(|(id, ranges)| (store[id], Range { ranges: ranges.clone() }))
}

/// `State::add_incompatibility` with `Incompatibility::no_versions`: the package has no version in
/// the range.
#[verifier::external_body]
pub(crate) fn pubgrub_no_versions(solver: &mut Solver, package: u64, range: &Range)
    requires
        disciplined(told(*old(solver))),
        follows(told(*old(solver)), Told::NoVersions { package, range: range@ }),
    ensures
        told(*final(solver)) == told(*old(solver)).push(Told::NoVersions { package, range: range@ }),
{
    let id = solver.state.package_store.alloc(package);
    let term = Term::Positive(range.ranges.clone());
    solver.state.add_incompatibility(Incompatibility::no_versions(id, term));
}

/// `State::add_incompatibility` with `Incompatibility::custom_term`: the package cannot be had in
/// the range.
#[verifier::external_body]
pub(crate) fn pubgrub_custom_term(solver: &mut Solver, package: u64, range: &Range, reason: usize)
    requires
        disciplined(told(*old(solver))),
        follows(told(*old(solver)), Told::UnavailablePackage { package, range: range@, reason }),
    ensures
        told(*final(solver)) == told(*old(solver)).push(
            Told::UnavailablePackage { package, range: range@, reason },
        ),
{
    let id = solver.state.package_store.alloc(package);
    let term = Term::Positive(range.ranges.clone());
    solver.state.add_incompatibility(Incompatibility::custom_term(id, term, reason.to_string()));
}

/// `State::add_incompatibility` with `Incompatibility::custom_version`: the package cannot be had
/// at the version.
#[verifier::external_body]
pub(crate) fn pubgrub_custom_version(
    solver: &mut Solver,
    package: u64,
    version: OutsideVersion,
    reason: usize,
)
    requires
        disciplined(told(*old(solver))),
        follows(
            told(*old(solver)),
            Told::UnavailableVersion { package, version: written(version), reason },
        ),
    ensures
        told(*final(solver)) == told(*old(solver)).push(
            Told::UnavailableVersion { package, version: written(version), reason },
        ),
{
    let id = solver.state.package_store.alloc(package);
    let incompatibility = Incompatibility::custom_version(id, version, reason.to_string());
    solver.state.add_incompatibility(incompatibility);
}

/// `State::add_incompatibility` with `Incompatibility::from_dependency`: the package at the
/// version depends on another package in the range.
#[verifier::external_body]
pub(crate) fn pubgrub_from_dependency(
    solver: &mut Solver,
    package: u64,
    version: OutsideVersion,
    dependency: u64,
    range: &Range,
)
    requires
        disciplined(told(*old(solver))),
        follows(
            told(*old(solver)),
            Told::Dependency { package, version: written(version), dependency, range: range@ },
        ),
    ensures
        told(*final(solver)) == told(*old(solver)).push(
            Told::Dependency { package, version: written(version), dependency, range: range@ },
        ),
{
    let id = solver.state.package_store.alloc(package);
    let on = (solver.state.package_store.alloc(dependency), range.ranges.clone());
    let incompatibility = Incompatibility::from_dependency(id, Ranges::singleton(version), on);
    solver.state.add_incompatibility(incompatibility);
}

/// `State::add_package_version_dependencies`: records the dependencies of the package at the
/// version, and decides on the version unless they conflict with what is decided on.
#[verifier::external_body]
pub(crate) fn pubgrub_add_package_version_dependencies(
    solver: &mut Solver,
    package: u64,
    version: OutsideVersion,
    dependencies: &Vec<(u64, Range)>,
)
    requires
        disciplined(told(*old(solver))),
        follows(
            told(*old(solver)),
            Told::Version {
                package,
                version: written(version),
                dependencies: dependency_views(dependencies@),
            },
        ),
    ensures
        told(*final(solver)) == told(*old(solver)).push(
            Told::Version {
                package,
                version: written(version),
                dependencies: dependency_views(dependencies@),
            },
        ),
{
    let id = solver.state.package_store.alloc(package);
    let dependencies = dependencies.iter().map(|entry| (entry.0, entry.1.ranges.clone()));
    let _ = solver.state.add_package_version_dependencies(id, version, dependencies);
}

/// `PartialSolution::add_decision`: decides on the package at the version.
#[verifier::external_body]
pub(crate) fn pubgrub_add_decision(solver: &mut Solver, package: u64, version: OutsideVersion)
    requires
        disciplined(told(*old(solver))),
        follows(told(*old(solver)), Told::Decision { package, version: written(version) }),
    ensures
        told(*final(solver)) == told(*old(solver)).push(
            Told::Decision { package, version: written(version) },
        ),
{
    let id = solver.state.package_store.alloc(package);
    solver.state.partial_solution.add_decision(id, version);
}

/// `PartialSolution::extract_solution`: the packages that are decided on, none of them twice, each
/// at a version that it was decided on at.
#[verifier::external_body]
pub(crate) fn pubgrub_extract_solution(solver: &Solver) -> (packages: Vec<(u64, OutsideVersion)>)
    ensures
        packages@.map_values(|entry: (u64, OutsideVersion)| (entry.0, written(entry.1)))
            == solution(told(*solver)),
        forall|i: int, j: int|
            0 <= i < j < packages@.len() ==> (#[trigger] packages@[i]).0 != (
            #[trigger] packages@[j]).0,
        forall|i: int|
            #![trigger packages@[i]]
            0 <= i < packages@.len() ==> {
                &&& reached(told(*solver), packages@[i].0)
                &&& mentioned(told(*solver), packages@[i].0)
                &&& decided(told(*solver), packages@[i].0, written(packages@[i].1))
            },
{
    let store = &solver.state.package_store;
    let solution = solver.state.partial_solution.extract_solution();
    solution.map(|(id, version)| (store[id], version)).collect()
}

/// `State::incompatibilities` of a package, each by its `Kind`: the dependency it records, if it
/// records one, between packages that the solver knows of.
///
/// Every dependency that was told is recorded with the package that has it. Those of several
/// versions on the same package in the same range are merged into one record, whose range is the
/// union of the versions; two ranges count as the same if their ends are equal, however they are
/// written. Nothing else is recorded.
#[verifier::external_body]
pub(crate) fn pubgrub_incompatibilities(
    solver: &mut Solver,
    package: u64,
) -> (records: Vec<Option<DependencyRecord>>)
    requires
        reached(told(*old(solver)), package),
    ensures
        told(*final(solver)) == told(*old(solver)),
        records@.map_values(|record: Option<DependencyRecord>| record_view(record))
            == dependency_records(told(*old(solver)), package),
        forall|i: int|
            0 <= i < records@.len() ==> ((#[trigger] records@[i]) matches Some(record)
                ==> mentioned(told(*old(solver)), record.dependency)),
        records_all(record_views(records@), told(*old(solver)), package),
        records_only(record_views(records@), told(*old(solver))),
{
    let key = solver.state.package_store.alloc(package);
    let (store, named) = (&solver.state.incompatibility_store, &solver.state.package_store);
    let records = solver.state.incompatibilities[&key].iter().map(|id| match &store[*id].kind {
        Kind::FromDependencyOf(id, range, on, on_range) => Some(DependencyRecord {
            package: named[*id],
            range: Range { ranges: range.clone() },
            dependency: named[*on],
            dependency_range: Range { ranges: on_range.clone() },
        }),
        Kind::NotRoot(..) | Kind::NoVersions(..) | Kind::DerivedFrom(..) | Kind::Custom(..) => None,
    });
    records.collect()
}

/// `State::clone`: a solver in the same state.
#[verifier::external_body]
pub(crate) fn pubgrub_clone(solver: &Solver) -> (copy: Solver)
    ensures
        told(copy) == told(*solver),
{
    Solver { state: solver.state.clone() }
}

/// What the optional records hold, in order.
pub open spec fn record_views(records: Seq<Option<DependencyRecord>>) -> Seq<Option<RecordView>> {
    records.map_values(|record: Option<DependencyRecord>| record_view(record))
}

/// What an optional record holds.
pub open spec fn record_view(record: Option<DependencyRecord>) -> Option<RecordView> {
    match record {
        Some(record) => Some(record@),
        None => None,
    }
}

/// Dependencies, each by the number of its package and the intervals of its range.
pub open spec fn dependency_views(dependencies: Seq<(u64, Range)>) -> Seq<(u64, Seq<Segment>)> {
    dependencies.map_values(|entry: (u64, Range)| (entry.0, entry.1@))
}

/// One more step keeps what was reached, and adds what it names or decides on itself.
pub proof fn lemma_next_step(told: Seq<Told>, step: Told)
    ensures
        forall|package: u64| #[trigger]
            mentioned(told.push(step), package) == (mentioned(told, package) || names(
                step,
                package,
            )),
        forall|package: u64, version: VersionParts| #[trigger]
            decided(told.push(step), package, version) == (decided(told, package, version)
                || decides(step, package, version)),
        forall|package: u64|
            reached(told, package) ==> #[trigger] reached(told.push(step), package),
{
    let longer = told.push(step);
    let n = told.len() as int;
    assert(longer[n] == step);
    assert forall|package: u64| #[trigger] mentioned(longer, package) == (mentioned(told, package)
        || names(step, package)) by {
        if mentioned(told, package) {
            let i = choose|i: int| 0 <= i < told.len() && #[trigger] names(told[i], package);
            assert(names(longer[i], package));
        }
        if names(step, package) {
            assert(names(longer[n], package));
        }
        if mentioned(longer, package) {
            let i = choose|i: int| 0 <= i < longer.len() && #[trigger] names(longer[i], package);
            if i < n {
                assert(names(told[i], package));
            }
        }
    }
    assert forall|package: u64, version: VersionParts| #[trigger]
        decided(longer, package, version) == (decided(told, package, version) || decides(
            step,
            package,
            version,
        )) by {
        if decided(told, package, version) {
            let i = choose|i: int|
                0 <= i < told.len() && #[trigger] decides(told[i], package, version);
            assert(decides(longer[i], package, version));
        }
        if decides(step, package, version) {
            assert(decides(longer[n], package, version));
        }
        if decided(longer, package, version) {
            let i = choose|i: int|
                0 <= i < longer.len() && #[trigger] decides(longer[i], package, version);
            if i < n {
                assert(decides(told[i], package, version));
            }
        }
    }
    assert forall|package: u64| reached(told, package) implies #[trigger] reached(
        longer,
        package,
    ) by {
        if exists|i: int| 0 <= i < told.len() && #[trigger] picks(told, i, package) {
            let i = choose|i: int| 0 <= i < told.len() && #[trigger] picks(told, i, package);
            assert(longer.take(i) =~= told.take(i));
            assert(picks(longer, i, package));
        } else {
            assert(longer[0] == told[0]);
        }
    }
}

/// A step that follows the others keeps to the order of steps.
pub proof fn lemma_follows(told: Seq<Told>, step: Told)
    requires
        disciplined(told),
        follows(told, step),
    ensures
        disciplined(told.push(step)),
        step is Dependency ==> awaiting(told.push(step)) == awaiting(told),
{
    assert(told.push(step).drop_last() =~= told);
}

/// Picking a package leaves what is respected and needed as it is.
pub proof fn lemma_needed_picked(told: Seq<Told>, ranks: Seq<Option<(u32, usize)>>)
    requires
        told.len() > 0,
    ensures
        forall|packages: Seq<(u64, VersionParts)>| #[trigger]
            needed(told, packages) ==> needed(told.push(Told::Pick { ranks }), packages),
        forall|packages: Seq<(u64, VersionParts)>| #[trigger]
            respected(told, packages) ==> respected(told.push(Told::Pick { ranks }), packages),
{
    let longer = told.push(Told::Pick { ranks });
    assert forall|packages: Seq<(u64, VersionParts)>| #[trigger]
        needed(told, packages) implies needed(longer, packages) by {
        assert forall|i: int| 0 <= i < packages.len() implies is_needed(
            longer,
            packages,
            (#[trigger] packages[i]).0,
        ) by {
            let package = packages[i].0;
            assert(is_needed(told, packages, package));
            assert(longer[0] == told[0]);
            if exists|k: int|
                0 <= k < told.len() && #[trigger] requires_package(told[k], packages, package) {
                let k = choose|k: int|
                    0 <= k < told.len() && #[trigger] requires_package(told[k], packages, package);
                assert(longer[k] == told[k]);
                assert(requires_package(longer[k], packages, package));
            }
        }
    }
    assert forall|packages: Seq<(u64, VersionParts)>| #[trigger]
        respected(told, packages) implies respected(longer, packages) by {
        assert forall|i: int| 0 <= i < longer.len() implies respects(
            #[trigger] longer[i],
            packages,
        ) by {
            if i < told.len() {
                assert(longer[i] == told[i]);
            }
        }
    }
}

/// A package that was just picked is reached, and awaits a decision.
pub proof fn lemma_picked(told: Seq<Told>, ranks: Seq<Option<(u32, usize)>>)
    ensures
        awaiting(told.push(Told::Pick { ranks })) == picked(told, ranks),
        picked(told, ranks) matches Some((package, _)) ==> reached(
            told.push(Told::Pick { ranks }),
            package,
        ),
{
    let longer = told.push(Told::Pick { ranks });
    assert(longer.drop_last() =~= told);
    if let Some((package, _)) = picked(told, ranks) {
        let n = told.len() as int;
        assert(longer.take(n) =~= told);
        assert(picks(longer, n, package));
    }
}

impl View for Solver {
    type V = Seq<Told>;

    open spec fn view(&self) -> Seq<Told> {
        told(*self)
    }
}

/// A package that was given a rank has it, and any other has the lowest rank there is.
pub proof fn law_ranks_are_kept(ranks: Seq<Option<(u32, usize)>>, package: u64)
    ensures
        package < ranks.len() ==> (ranks[package as int] matches Some(rank) ==> Ranks::rank_of(
            ranks,
            package,
        ) == rank),
        package >= ranks.len() || ranks[package as int] is None ==> Ranks::rank_of(ranks, package)
            == (0u32, usize::MAX),
{
}

} // verus!
