use vstd::prelude::*;

use crate::package::PackageView;
use crate::range::{segments_have, Segment};
use crate::resolution::{all_recorded, edge_at, is_recorded, solved_packages, NamesKey, VersionsKey};
use crate::resolver::{is_solved_state, joined};
use crate::solver::{dependency_records, record_tells, same_versions, solution, tells};
use crate::state::{ResolutionView, SolveView};
use crate::version::{VersionKey, VersionParts};

verus! {

/// The extra that a package stands for or carries.
pub open spec fn extra_of(package: PackageView) -> Option<Seq<char>> {
    match package {
        PackageView::Package { extra, .. } => extra,
        PackageView::Extra { extra, .. } => Some(extra),
        _ => None,
    }
}

/// Whether a step told the solver of the state that the package at `i` of the solution depends on
/// the one at `j`, in a range that its version is in.
pub open spec fn depends_in_solution(state: SolveView, k: int, i: int, j: int) -> bool {
    let packages = solution(state.told);
    &&& 0 <= k < state.told.len()
    &&& 0 <= i < packages.len()
    &&& 0 <= j < packages.len()
    &&& exists|range: Seq<Segment>|
        #![trigger segments_have(range, packages[j].1.key())]
        tells(state.told[k], packages[i].0, packages[i].1.key(), packages[j].0, range)
            && segments_have(range, packages[j].1.key())
}

/// The dependencies of a resolution are complete: if the solver was told that a package at its
/// version in the solution depends on another one of another name, and that one is in the solution
/// in the range that was told, the resolution lists it, with the names, versions and extras of
/// both. Markers and URLs have no part in it.
pub proof fn law_told_dependencies_are_listed(
    state: SolveView,
    table: Seq<PackageView>,
    k: int,
    i: int,
    j: int,
)
    requires
        all_recorded(state.told),
        depends_in_solution(state, k, i, j),
        table[solution(state.told)[i].0 as int] is Package,
        table[solution(state.told)[j].0 as int].name() is Some,
        table[solution(state.told)[i].0 as int].name() != table[solution(
            state.told,
        )[j].0 as int].name(),
    ensures
        ({
            let (from, from_version) = solution(state.told)[i];
            let (to, to_version) = solution(state.told)[j];
            let package = table[from as int];
            let dependency = table[to as int];
            state.resolution(table).dependencies.contains(
                (
                    NamesKey { from: package.name()->0, to: dependency.name()->0 },
                    VersionsKey {
                        from_version: from_version.key(),
                        from_extra: extra_of(package),
                        to_version: to_version.key(),
                        to_extra: extra_of(dependency),
                    },
                ),
            )
        }),
{
    let packages = solution(state.told);
    let (from, from_version) = packages[i];
    let (to, to_version) = packages[j];
    let records = dependency_records(state.told, from);
    let range = choose|range: Seq<Segment>|
        #![trigger segments_have(range, packages[j].1.key())]
        tells(state.told[k], packages[i].0, packages[i].1.key(), packages[j].0, range)
            && segments_have(range, packages[j].1.key());
    assert(is_recorded(state.told, packages[i].0));
    let r = choose|r: int|
        0 <= r < records.len() && #[trigger] record_tells(
            records[r],
            from,
            from_version.key(),
            to,
            range,
        );
    assert(segments_have((records[r]->0).dependency_range, to_version.key()));
    let package = table[from as int];
    let dependency = table[to as int];
    let edge = (
        NamesKey { from: package.name()->0, to: dependency.name()->0 },
        VersionsKey {
            from_version: from_version.key(),
            from_extra: extra_of(package),
            to_version: to_version.key(),
            to_extra: extra_of(dependency),
        },
    );
    assert(edge_at(state.told, table, i, r, j, edge));
}

/// Nothing else is listed: what a resolution lists as a dependency was told to the solver, of two
/// packages of different names in the solution, at their versions and with their extras. The one
/// that depends on the other is not the package of an extra.
pub proof fn law_listed_dependencies_were_told(
    state: SolveView,
    table: Seq<PackageView>,
    names: NamesKey,
    versions: VersionsKey,
)
    requires
        all_recorded(state.told),
        state.resolution(table).dependencies.contains((names, versions)),
    ensures
        exists|k: int, i: int, j: int|
            {
                &&& #[trigger] depends_in_solution(state, k, i, j)
                &&& is_edge_of(
                    table[solution(state.told)[i].0 as int],
                    solution(state.told)[i].1,
                    table[solution(state.told)[j].0 as int],
                    solution(state.told)[j].1,
                    names,
                    versions,
                )
            },
{
    let packages = solution(state.told);
    let edge = (names, versions);
    let (i, r, j) = choose|i: int, r: int, j: int| #[trigger]
        edge_at(state.told, table, i, r, j, edge);
    let records = dependency_records(state.told, packages[i].0);
    assert(is_recorded(state.told, packages[i].0));
    let key = packages[i].1.key();
    assert(records[r] is Some);
    assert(segments_have((records[r]->0).range, key));
    let (k, range) = choose|k: int, range: Seq<Segment>|
        0 <= k < state.told.len() && #[trigger] tells(
            state.told[k],
            (records[r]->0).package,
            key,
            (records[r]->0).dependency,
            range,
        ) && same_versions((records[r]->0).dependency_range, range);
    assert(segments_have(range, packages[j].1.key()));
    assert(depends_in_solution(state, k, i, j));
}

/// Whether the names and versions are those of the two packages, of which the first is no package
/// of an extra and has another name than the second.
pub open spec fn is_edge_of(
    package: PackageView,
    version: VersionParts,
    dependency: PackageView,
    dependency_version: VersionParts,
    names: NamesKey,
    versions: VersionsKey,
) -> bool {
    &&& package is Package
    &&& package.name() == Some(names.from)
    &&& dependency.name() == Some(names.to)
    &&& names.from != names.to
    &&& versions.from_version == version.key()
    &&& versions.from_extra == extra_of(package)
    &&& versions.to_version == dependency_version.key()
    &&& versions.to_extra == extra_of(dependency)
}

/// A solved state resolves exactly the packages of its solution, each at its version, and pins what
/// it pinned on the way.
pub proof fn law_the_solution_is_resolved(
    state: SolveView,
    table: Seq<PackageView>,
    package: PackageView,
    key: VersionKey,
)
    ensures
        state.resolution(table).packages.contains((package, key)) <==> exists|i: int|
            0 <= i < solution(state.told).len() && table[(#[trigger] solution(
                state.told,
            )[i]).0 as int] == package && solution(state.told)[i].1.key() == key,
        state.resolution(table).pins == state.pins,
{
    let packages = solution(state.told);
    let list = solved_packages(state.told, table);
    if state.resolution(table).packages.contains((package, key)) {
        let i = choose|i: int| 0 <= i < list.len() && list[i] == (package, key);
        assert(packages[i].1.key() == key);
    }
    if exists|i: int|
        0 <= i < packages.len() && table[(#[trigger] packages[i]).0 as int] == package
            && packages[i].1.key() == key {
        let i = choose|i: int|
            0 <= i < packages.len() && table[(#[trigger] packages[i]).0 as int] == package
                && packages[i].1.key() == key;
        assert(list[i] == (package, key));
    }
}

/// A resolution that joins two others holds what either of them holds, and nothing else. It pins
/// what either pins, and as the second where both pin a package at a version.
pub proof fn law_joining_takes_everything(
    one: ResolutionView,
    other: ResolutionView,
    package: (PackageView, VersionKey),
    edge: (NamesKey, VersionsKey),
    pin: (Seq<char>, VersionKey),
)
    ensures
        one.union(other).packages.contains(package) <==> one.packages.contains(package)
            || other.packages.contains(package),
        one.union(other).dependencies.contains(edge) <==> one.dependencies.contains(edge)
            || other.dependencies.contains(edge),
        one.union(other).pins.dom().contains(pin) <==> one.pins.dom().contains(pin)
            || other.pins.dom().contains(pin),
        other.pins.dom().contains(pin) ==> one.union(other).pins[pin] == other.pins[pin],
        one.pins.dom().contains(pin) && !other.pins.dom().contains(pin) ==> one.union(
            other,
        ).pins[pin] == one.pins[pin],
{
}

/// What a solved state was told to depend on each other is listed by everything that was resolved.
pub proof fn law_told_dependencies_are_resolved(
    resolution: ResolutionView,
    finished: Seq<SolveView>,
    table: Seq<PackageView>,
    n: int,
    k: int,
    i: int,
    j: int,
    names: NamesKey,
    versions: VersionsKey,
)
    requires
        joined(resolution, finished, table),
        0 <= n < finished.len(),
        is_solved_state(finished[n], table.len()),
        depends_in_solution(finished[n], k, i, j),
        is_edge_of(
            table[solution(finished[n].told)[i].0 as int],
            solution(finished[n].told)[i].1,
            table[solution(finished[n].told)[j].0 as int],
            solution(finished[n].told)[j].1,
            names,
            versions,
        ),
    ensures
        resolution.dependencies.contains((names, versions)),
{
    law_told_dependencies_are_listed(finished[n], table, k, i, j);
    assert(finished[n].resolution(table).dependencies.contains((names, versions)));
}

} // verus!
