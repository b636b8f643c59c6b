use vstd::prelude::*;

use crate::dependencies::{exactly, first_finding, forked, unmarked, FindingView};
use crate::forks::{law_every_dependency_is_in_a_fork, DependencyView};
use crate::order::strict_total_order;
use crate::package::PackageView;
use crate::pep440::min_version_parts;
use crate::range::{lemma_interval, segments_have, End, Segment};
use crate::resolution::solved_packages;
use crate::resolver::all_solved;
use crate::solver::{includes, is_needed, provides, requires_package, respects, solution, Told};
use crate::state::{initial_view, number_of, SolveView};
use crate::support::{
    adds, carries, extras_by_proxy, is_backed, is_listed, limits, told_carries, was_added,
    was_limited, well_listed, with_extra,
};
use crate::transition::{Listing, ResolverView};
use crate::version::{key_lt, law_versions_are_totally_ordered, VersionKey, VersionParts};

verus! {

/// Whether a solved state resolves the dependency, at a version in its range.
pub open spec fn resolves(
    state: SolveView,
    table: Seq<PackageView>,
    dependency: DependencyView,
) -> bool {
    exists|key: VersionKey| #[trigger]
        state.resolution(table).packages.contains((dependency.package, key)) && segments_have(
            dependency.range,
            key,
        )
}

/// Whether one of the solved states resolves the dependency, at a version in its range.
pub open spec fn is_resolved(resolver: ResolverView, dependency: DependencyView) -> bool {
    exists|i: int|
        0 <= i < resolver.finished.len() && resolves(
            #[trigger] resolver.finished[i],
            resolver.table,
            dependency,
        )
}

/// What is provided is resolved.
proof fn lemma_provided(
    state: SolveView,
    table: Seq<PackageView>,
    number: u64,
    range: Seq<Segment>,
    package: PackageView,
)
    requires
        provides(solution(state.told), number, range),
        table[number as int] == package,
    ensures
        resolves(state, table, (DependencyView { package, range })),
{
    let packages = solution(state.told);
    let j = choose|j: int|
        0 <= j < packages.len() && (#[trigger] packages[j]).0 == number && segments_have(
            range,
            packages[j].1.key(),
        );
    assert(solved_packages(state.told, table)[j] == (package, packages[j].1.key()));
    assert(state.resolution(table).packages.contains((package, packages[j].1.key())));
}

/// If a step carries a fork of a listing and its package is in the solution, the solution has
/// every dependency of the fork, in its range.
proof fn lemma_carried(
    resolver: ResolverView,
    i: int,
    k: int,
    listing: Listing,
    f: int,
    j: int,
)
    requires
        resolver.table.len() <= u64::MAX,
        all_solved(resolver.finished, resolver.table.len()),
        0 <= i < resolver.finished.len(),
        0 <= k < resolver.finished[i].told.len(),
        carries(resolver.ledger(), resolver.finished[i].told[k], listing, f),
        resolver.finished[i].told[k] matches Told::Version { package, version, .. } && includes(
            solution(resolver.finished[i].told),
            package,
            version,
        ),
        0 <= j < forked(listing.dependencies, resolver.universal)[f].len(),
    ensures
        ({
            let dependency = forked(listing.dependencies, resolver.universal)[f][j];
            let number = number_of(resolver.table, dependency.package);
            &&& number < resolver.table.len()
            &&& resolver.table[number as int] == dependency.package
            &&& provides(solution(resolver.finished[i].told), number, dependency.range)
            &&& resolves(resolver.finished[i], resolver.table, dependency)
        }),
{
    let state = resolver.finished[i];
    let fork = forked(listing.dependencies, resolver.universal)[f];
    let dependency = fork[j];
    assert(respects(state.told[k], solution(state.told)));
    assert(resolver.table.contains(dependency.package));
    let at = resolver.table.index_of(dependency.package);
    assert(resolver.table[at] == dependency.package);
    let number = number_of(resolver.table, dependency.package);
    assert(number == at);
    if let Told::Version { dependencies, .. } = state.told[k] {
        assert(dependencies[j] == (number, dependency.range));
        assert(provides(solution(state.told), dependencies[j].0, dependencies[j].1));
    }
    lemma_provided(state, resolver.table, number, dependency.range, dependency.package);
}

/// Every requirement is resolved: once a resolution is complete, each dependency that the root was
/// found to have is resolved in its range by one of the solved states. For a single environment
/// there is one such state.
#[verifier::spinoff_prover]
pub proof fn law_requirements_are_resolved(resolver: ResolverView, a: int, j: int)
    requires
        resolver.sound(),
        resolver.in_phase(),
        resolver.phase is Finished,
        resolver.table.len() <= u64::MAX,
        all_solved(resolver.finished, resolver.table.len()),
        0 <= a < resolver.listed.len(),
        resolver.listed[a].package is Root,
        0 <= j < resolver.listed[a].dependencies.len(),
    ensures
        is_resolved(resolver, resolver.listed[a].dependencies[j]),
{
    let listing = resolver.listed[a];
    let dependency = listing.dependencies[j];
    let forks = forked(listing.dependencies, resolver.universal);
    assert(listing.dependencies.contains(dependency));
    let fork = if resolver.universal {
        law_every_dependency_is_in_a_fork(listing.dependencies, dependency);
        choose|fork: Seq<DependencyView>| #[trigger]
            forks.contains(fork) && fork.contains(dependency)
    } else {
        assert(forks[0] == listing.dependencies);
        listing.dependencies
    };
    assert(forks.contains(fork));
    let f = choose|f: int| 0 <= f < forks.len() && forks[f] == fork;
    let m = choose|m: int| 0 <= m < fork.len() && fork[m] == dependency;
    assert(resolver.has_fork(resolver.listed[a], f));
    let i = choose|i: int|
        0 <= i < resolver.finished.len() && told_carries(
            resolver.ledger(),
            (#[trigger] resolver.finished[i]).told,
            listing,
            f,
        );
    let state = resolver.finished[i];
    let k = choose|k: int|
        0 <= k < state.told.len() && #[trigger] carries(
            resolver.ledger(),
            state.told[k],
            listing,
            f,
        );
    assert(well_listed(listing, resolver.transitive));
    assert(respects(state.told[0], solution(state.told)));
    if let Told::Version { package, version, .. } = state.told[k] {
        assert(resolver.table[package as int] is Root);
        assert(package == 0);
        assert(includes(solution(state.told), package, version));
    }
    lemma_carried(resolver, i, k, listing, f, m);
}

/// A complete resolution has a solution: there is a state that was solved.
pub proof fn law_a_complete_resolution_is_solved(resolver: ResolverView)
    requires
        resolver.sound(),
        resolver.in_phase(),
        resolver.phase is Finished,
    ensures
        resolver.finished.len() > 0,
{
    assert(resolver.has_told(initial_view().told));
}

/// Every solved state resolves the requirements: the root was found to have dependencies, and the
/// state resolves each of them in its range, or each of one fork of them. For a single environment
/// there is only one fork, so that it resolves them all.
pub proof fn law_solved_states_resolve_the_requirements(resolver: ResolverView, i: int)
    requires
        resolver.sound(),
        resolver.table.len() <= u64::MAX,
        all_solved(resolver.finished, resolver.table.len()),
        0 <= i < resolver.finished.len(),
    ensures
        resolver.table[0] is Root,
        has_dependencies(
            resolver,
            resolver.finished[i],
            resolver.table[0],
            min_version_parts().key(),
        ),
{
    let state = resolver.finished[i];
    let packages = solution(state.told);
    assert(respects(state.told[0], packages));
    let e = choose|e: int|
        0 <= e < packages.len() && (#[trigger] packages[e]).0 == 0 && packages[e].1.key()
            == min_version_parts().key();
    let key = packages[e].1.key();
    assert(packages[e].0 == 0);
    if was_limited(state.told, 0, key) {
        let k = choose|k: int|
            0 <= k < state.told.len() && #[trigger] limits(state.told[k], 0, key);
        assert(is_backed(resolver.ledger(), state.pins, state.told[k]));
    }
    let (a, f, _) = lemma_listing_of(resolver, i, e);
    assert(resolves_fork(resolver, state, resolver.table[0], key, a, f));
}

/// Whether every requirement is resolved by one of the solved states.
pub open spec fn requirements_resolved(resolver: ResolverView) -> bool {
    forall|a: int, j: int|
        #![trigger resolver.listed[a].dependencies[j]]
        0 <= a < resolver.listed.len() && resolver.listed[a].package is Root && 0 <= j
            < resolver.listed[a].dependencies.len() ==> is_resolved(
            resolver,
            resolver.listed[a].dependencies[j],
        )
}

/// Every requirement is resolved.
pub proof fn lemma_requirements_resolved(resolver: ResolverView)
    requires
        resolver.sound(),
        resolver.in_phase(),
        resolver.phase is Finished,
        resolver.table.len() <= u64::MAX,
        all_solved(resolver.finished, resolver.table.len()),
    ensures
        requirements_resolved(resolver),
{
    assert forall|a: int, j: int|
        #![trigger resolver.listed[a].dependencies[j]]
        0 <= a < resolver.listed.len() && resolver.listed[a].package is Root && 0 <= j
            < resolver.listed[a].dependencies.len() implies is_resolved(
        resolver,
        resolver.listed[a].dependencies[j],
    ) by {
        law_requirements_are_resolved(resolver, a, j);
    }
}

/// Whether the package at the version was found to have dependencies, all of which, or all of one
/// fork of which, the solved state resolves.
pub open spec fn has_dependencies(
    resolver: ResolverView,
    state: SolveView,
    package: PackageView,
    key: VersionKey,
) -> bool {
    exists|a: int, f: int| #[trigger] resolves_fork(resolver, state, package, key, a, f)
}

/// Whether fork `f` of the listing `a` is one of the package at the version, and the solved state
/// resolves every dependency in it.
pub open spec fn resolves_fork(
    resolver: ResolverView,
    state: SolveView,
    package: PackageView,
    key: VersionKey,
    a: int,
    f: int,
) -> bool {
    let listing = resolver.listed[a];
    let forks = forked(listing.dependencies, resolver.universal);
    &&& 0 <= a < resolver.listed.len()
    &&& listing.package == package
    &&& listing.version.key() == key
    &&& 0 <= f < forks.len()
    &&& forall|j: int|
        0 <= j < forks[f].len() ==> resolves(state, resolver.table, #[trigger] forks[f][j])
}

/// Whether the solved state resolves everything that the package at the version needs of Python.
pub open spec fn has_python(
    resolver: ResolverView,
    state: SolveView,
    package: u64,
    key: VersionKey,
) -> bool {
    forall|k: int|
        0 <= k < state.told.len() && #[trigger] limits(state.told[k], package, key) ==> (
        state.told[k] matches Told::Dependency { dependency, range, .. } && resolves(
            state,
            resolver.table,
            (DependencyView { package: resolver.table[dependency as int], range }),
        ))
}

/// The dependencies of resolved packages are resolved: each package in the solution of a solved
/// state was found to have dependencies at its version, and the state resolves each of them in its
/// range, or each of one fork of them. The exception is a package at a version that only some
/// Python versions can use, whose dependencies are never looked at: the state resolves the Python
/// versions that it needs.
pub proof fn law_resolved_packages_have_their_dependencies(resolver: ResolverView, i: int, e: int)
    requires
        resolver.sound(),
        resolver.table.len() <= u64::MAX,
        all_solved(resolver.finished, resolver.table.len()),
        0 <= i < resolver.finished.len(),
        0 <= e < solution(resolver.finished[i].told).len(),
    ensures
        ({
            let state = resolver.finished[i];
            let (package, version) = solution(state.told)[e];
            ||| has_dependencies(
                resolver,
                state,
                resolver.table[package as int],
                version.key(),
            )
            ||| was_limited(state.told, package, version.key()) && has_python(
                resolver,
                state,
                package,
                version.key(),
            )
        }),
{
    let state = resolver.finished[i];
    let packages = solution(state.told);
    let (package, version) = packages[e];
    let key = version.key();
    if was_added(state.told, package, key) {
        let (a, f, _) = lemma_listing_of(resolver, i, e);
        assert(resolves_fork(resolver, state, resolver.table[package as int], key, a, f));
    } else {
        assert forall|k: int| 0 <= k < state.told.len() && #[trigger] limits(
            state.told[k],
            package,
            key,
        ) implies (state.told[k] matches Told::Dependency { dependency, range, .. } && resolves(
            state,
            resolver.table,
            (DependencyView { package: resolver.table[dependency as int], range }),
        )) by {
            assert(respects(state.told[k], packages));
            if let Told::Dependency { package: subject, version: at, dependency, range } =
                state.told[k] {
                assert(includes(packages, subject, at));
                lemma_provided(
                    state,
                    resolver.table,
                    dependency,
                    range,
                    resolver.table[dependency as int],
                );
            }
        }
    }
}

/// The listing that a resolved package was added with, and the fork of it.
proof fn lemma_listing_of(resolver: ResolverView, i: int, e: int) -> (found: (int, int, int))
    requires
        resolver.sound(),
        resolver.table.len() <= u64::MAX,
        all_solved(resolver.finished, resolver.table.len()),
        0 <= i < resolver.finished.len(),
        0 <= e < solution(resolver.finished[i].told).len(),
        was_added(
            resolver.finished[i].told,
            solution(resolver.finished[i].told)[e].0,
            solution(resolver.finished[i].told)[e].1.key(),
        ),
    ensures
        ({
            let state = resolver.finished[i];
            let (package, version) = solution(state.told)[e];
            let (a, f, k) = found;
            &&& resolves_fork(
                resolver,
                state,
                resolver.table[package as int],
                version.key(),
                a,
                f,
            )
            &&& package < resolver.table.len()
            &&& 0 <= k < state.told.len()
            &&& adds(state.told[k], package, version.key())
            &&& carries(resolver.ledger(), state.told[k], resolver.listed[a], f)
        }),
{
    let state = resolver.finished[i];
    let packages = solution(state.told);
    let (package, version) = packages[e];
    let key = version.key();
    let k = choose|k: int|
        0 <= k < state.told.len() && #[trigger] adds(state.told[k], package, key);
    assert(is_backed(resolver.ledger(), state.pins, state.told[k]));
    assert(is_listed(resolver.ledger(), state.told[k]));
    let (a, f) = choose|a: int, f: int|
        0 <= a < resolver.listed.len() && #[trigger] carries(
            resolver.ledger(),
            state.told[k],
            resolver.listed[a],
            f,
        );
    let listing = resolver.listed[a];
    let fork = forked(listing.dependencies, resolver.universal)[f];
    if let Told::Version { package: subject, version: at, .. } = state.told[k] {
        assert(packages[e].0 == subject);
        assert(includes(packages, subject, at));
    }
    assert forall|j: int| 0 <= j < fork.len() implies resolves(
        state,
        resolver.table,
        #[trigger] fork[j],
    ) by {
        lemma_carried(resolver, i, k, listing, f, j);
    }
    (a, f, k)
}

/// Resolved packages of a registry are pinned: if the solution of a solved state has such a package
/// at a version whose dependencies were found, the state pins it at that version to a
/// distribution.
pub proof fn law_resolved_packages_are_pinned(resolver: ResolverView, i: int, e: int)
    requires
        resolver.sound(),
        0 <= i < resolver.finished.len(),
        0 <= e < solution(resolver.finished[i].told).len(),
        was_added(
            resolver.finished[i].told,
            solution(resolver.finished[i].told)[e].0,
            solution(resolver.finished[i].told)[e].1.key(),
        ),
        resolver.table[solution(resolver.finished[i].told)[e].0 as int].name() is Some,
        resolver.table[solution(resolver.finished[i].told)[e].0 as int].url() is None,
    ensures
        ({
            let state = resolver.finished[i];
            let (package, version) = solution(state.told)[e];
            state.pins.dom().contains(
                (resolver.table[package as int].name()->0, version.key()),
            )
        }),
{
    let state = resolver.finished[i];
    let (package, version) = solution(state.told)[e];
    let k = choose|k: int|
        0 <= k < state.told.len() && #[trigger] adds(state.told[k], package, version.key());
    assert(is_backed(resolver.ledger(), state.pins, state.told[k]));
}

/// A range of a single version holds no other.
proof fn lemma_exactly(version: VersionParts, key: VersionKey)
    requires
        segments_have(exactly(version), key),
    ensures
        key == version.key(),
{
    lemma_interval(End::Included(version), End::Included(version), key);
    law_versions_are_totally_ordered();
    let lt = |a: VersionKey, b: VersionKey| key_lt(a, b);
    assert(strict_total_order(lt));
    assert(!lt(key, version.key()));
    assert(!lt(version.key(), key));
}

/// Whether the solution of a solved state has the package at the version.
pub open spec fn has_package(
    resolver: ResolverView,
    state: SolveView,
    package: PackageView,
    key: VersionKey,
) -> bool {
    exists|e: int| #[trigger] package_at(resolver, state, package, key, e)
}

/// Whether entry `e` of the solution of a solved state is the package at the version.
pub open spec fn package_at(
    resolver: ResolverView,
    state: SolveView,
    package: PackageView,
    key: VersionKey,
    e: int,
) -> bool {
    let packages = solution(state.told);
    &&& 0 <= e < packages.len()
    &&& resolver.table[packages[e].0 as int] == package
    &&& packages[e].1.key() == key
}

/// Whether every package in the solution of a state was added at its version: none of them is
/// there at a version that only some Python versions can use.
pub open spec fn all_added(state: SolveView) -> bool {
    let packages = solution(state.told);
    forall|e: int|
        0 <= e < packages.len() ==> was_added(
            state.told,
            (#[trigger] packages[e]).0,
            packages[e].1.key(),
        )
}

/// Whether the solved state is one for a single environment, with the dependencies of
/// dependencies, in which every package was added at its version.
pub open spec fn is_plain(resolver: ResolverView, i: int) -> bool {
    &&& resolver.sound()
    &&& !resolver.universal
    &&& resolver.transitive
    &&& resolver.table.len() <= u64::MAX
    &&& all_solved(resolver.finished, resolver.table.len())
    &&& 0 <= i < resolver.finished.len()
    &&& all_added(resolver.finished[i])
}

/// Whether packages with extras are depended on only through the packages of the extras, or through
/// the same packages with markers.
pub open spec fn all_extras_by_proxy(resolver: ResolverView) -> bool {
    forall|a: int| 0 <= a < resolver.listed.len() ==> extras_by_proxy(#[trigger] resolver.listed[a])
}

/// A dependency on exactly one version is resolved at that version.
proof fn lemma_exact_dependency(
    resolver: ResolverView,
    i: int,
    e: int,
    k: int,
    listing: Listing,
    j: int,
)
    requires
        is_plain(resolver, i),
        0 <= e < solution(resolver.finished[i].told).len(),
        0 <= k < resolver.finished[i].told.len(),
        adds(
            resolver.finished[i].told[k],
            solution(resolver.finished[i].told)[e].0,
            solution(resolver.finished[i].told)[e].1.key(),
        ),
        carries(resolver.ledger(), resolver.finished[i].told[k], listing, 0),
        0 <= j < listing.dependencies.len(),
        listing.dependencies[j].range == exactly(listing.version),
    ensures
        has_package(
            resolver,
            resolver.finished[i],
            listing.dependencies[j].package,
            solution(resolver.finished[i].told)[e].1.key(),
        ),
{
    let state = resolver.finished[i];
    let packages = solution(state.told);
    let dependency = listing.dependencies[j];
    assert(forked(listing.dependencies, false)[0] == listing.dependencies);
    if let Told::Version { package, version, .. } = state.told[k] {
        assert(packages[e].0 == package);
        assert(includes(packages, package, version));
    }
    lemma_carried(resolver, i, k, listing, 0, j);
    let number = number_of(resolver.table, dependency.package);
    let m = choose|m: int|
        0 <= m < packages.len() && (#[trigger] packages[m]).0 == number && segments_have(
            dependency.range,
            packages[m].1.key(),
        );
    lemma_exactly(listing.version, packages[m].1.key());
    assert(package_at(resolver, state, dependency.package, packages[e].1.key(), m));
}

/// The listing that a resolved package was added with, which does not fork.
proof fn lemma_plain_listing(resolver: ResolverView, i: int, e: int) -> (found: (int, int))
    requires
        is_plain(resolver, i),
        0 <= e < solution(resolver.finished[i].told).len(),
    ensures
        ({
            let state = resolver.finished[i];
            let (package, version) = solution(state.told)[e];
            let (a, k) = found;
            let listing = resolver.listed[a];
            &&& 0 <= a < resolver.listed.len()
            &&& 0 <= k < state.told.len()
            &&& adds(state.told[k], package, version.key())
            &&& carries(resolver.ledger(), state.told[k], listing, 0)
            &&& listing.package == resolver.table[package as int]
            &&& listing.version.key() == version.key()
            &&& well_listed(listing, true)
        }),
{
    let (a, f, k) = lemma_listing_of(resolver, i, e);
    assert(well_listed(resolver.listed[a], resolver.transitive));
    (a, k)
}

/// A package with a marker is resolved together with the same package without one, at the same
/// version.
pub proof fn law_marked_packages_follow_the_unmarked(
    resolver: ResolverView,
    i: int,
    name: Seq<char>,
    extra: Option<Seq<char>>,
    marker: Seq<char>,
    url: Option<Seq<char>>,
    key: VersionKey,
)
    requires
        is_plain(resolver, i),
        has_package(
            resolver,
            resolver.finished[i],
            PackageView::Package { name, extra, marker: Some(marker), url },
            key,
        ),
    ensures
        has_package(
            resolver,
            resolver.finished[i],
            PackageView::Package { name, extra, marker: None, url },
            key,
        ),
{
    let state = resolver.finished[i];
    let marked = PackageView::Package { name, extra, marker: Some(marker), url };
    let e = choose|e: int| #[trigger] package_at(resolver, state, marked, key, e);
    let (a, k) = lemma_plain_listing(resolver, i, e);
    let listing = resolver.listed[a];
    let more = unmarked(listing.package, listing.version);
    assert(listing.dependencies.contains(more[0]));
    let j = choose|j: int|
        0 <= j < listing.dependencies.len() && listing.dependencies[j] == more[0];
    lemma_exact_dependency(resolver, i, e, k, listing, j);
}

/// An extra is resolved together with its package, without and with the extra, at the same
/// version.
pub proof fn law_extras_follow_their_package(
    resolver: ResolverView,
    i: int,
    name: Seq<char>,
    extra: Seq<char>,
    marker: Option<Seq<char>>,
    url: Option<Seq<char>>,
    key: VersionKey,
)
    requires
        is_plain(resolver, i),
        has_package(
            resolver,
            resolver.finished[i],
            PackageView::Extra { name, extra, marker, url },
            key,
        ),
    ensures
        has_package(
            resolver,
            resolver.finished[i],
            PackageView::Package { name, extra: None, marker, url },
            key,
        ),
        has_package(
            resolver,
            resolver.finished[i],
            PackageView::Package { name, extra: Some(extra), marker, url },
            key,
        ),
{
    let state = resolver.finished[i];
    let package = PackageView::Extra { name, extra, marker, url };
    let e = choose|e: int| #[trigger] package_at(resolver, state, package, key, e);
    let (a, k) = lemma_plain_listing(resolver, i, e);
    let listing = resolver.listed[a];
    assert(first_finding(listing.package, listing.version, true) == FindingView::Known(
        listing.dependencies,
    ));
    lemma_exact_dependency(resolver, i, e, k, listing, 0);
    lemma_exact_dependency(resolver, i, e, k, listing, 1);
}

/// Whether the solution has what a package with an extra comes from: the package of the extra, at
/// the same version, or the same package with a marker.
pub open spec fn has_extra_or_marked(
    resolver: ResolverView,
    state: SolveView,
    package: PackageView,
    key: VersionKey,
) -> bool {
    package matches PackageView::Package { name, extra: Some(extra), marker, url } && {
        ||| has_package(resolver, state, PackageView::Extra { name, extra, marker, url }, key)
        ||| marker is None && exists|other: Seq<char>| #[trigger]
            has_package(
                resolver,
                state,
                PackageView::Package { name, extra: Some(extra), marker: Some(other), url },
                key,
            )
    }
}

/// A named package is in a solution because another package in it was found to depend on it.
#[verifier::spinoff_prover]
proof fn lemma_needed_by(resolver: ResolverView, i: int, e: int) -> (found: (int, int, int, int))
    requires
        is_plain(resolver, i),
        0 <= e < solution(resolver.finished[i].told).len(),
        resolver.table[solution(resolver.finished[i].told)[e].0 as int].name() is Some,
    ensures
        ({
            let told = resolver.finished[i].told;
            let packages = solution(told);
            let (d, k, a, j) = found;
            let listing = resolver.listed[a];
            &&& 0 <= d < packages.len()
            &&& 0 <= k < told.len()
            &&& 0 <= a < resolver.listed.len()
            &&& 0 <= j < listing.dependencies.len()
            &&& adds(told[k], packages[d].0, packages[d].1.key())
            &&& carries(resolver.ledger(), told[k], listing, 0)
            &&& listing.package == resolver.table[packages[d].0 as int]
            &&& listing.dependencies[j].package == resolver.table[packages[e].0 as int]
            &&& well_listed(listing, true)
        }),
{
    let state = resolver.finished[i];
    let told = state.told;
    let packages = solution(told);
    let number = packages[e].0;
    assert(number < resolver.table.len());
    assert(is_needed(told, packages, number));
    let k = choose|k: int|
        0 <= k < told.len() && #[trigger] requires_package(told[k], packages, number);
    assert(is_backed(resolver.ledger(), state.pins, told[k]));
    let subject = told[k]->Version_package;
    let at = told[k]->Version_version;
    let dependencies = told[k]->dependencies;
    assert(includes(packages, subject, at));
    let d = choose|d: int|
        0 <= d < packages.len() && (#[trigger] packages[d]).0 == subject && packages[d].1.key()
            == at.key();
    assert(is_listed(resolver.ledger(), told[k]));
    let (a, f) = choose|a: int, f: int|
        0 <= a < resolver.listed.len() && #[trigger] carries(
            resolver.ledger(),
            told[k],
            resolver.listed[a],
            f,
        );
    let listing = resolver.listed[a];
    assert(f == 0);
    assert(forked(listing.dependencies, false)[0] == listing.dependencies);
    assert(well_listed(listing, resolver.transitive));
    let j = choose|j: int| 0 <= j < dependencies.len() && (#[trigger] dependencies[j]).0 == number;
    lemma_carried(resolver, i, k, listing, 0, j);
    assert(dependencies[j].0 == number_of(resolver.table, listing.dependencies[j].package));
    (d, k, a, j)
}

/// The solution has no package twice.
proof fn lemma_same_entry(
    resolver: ResolverView,
    i: int,
    package: PackageView,
    key: VersionKey,
    e: int,
)
    requires
        is_plain(resolver, i),
        0 <= e < solution(resolver.finished[i].told).len(),
        resolver.table[solution(resolver.finished[i].told)[e].0 as int] == package,
        has_package(resolver, resolver.finished[i], package, key),
    ensures
        solution(resolver.finished[i].told)[e].1.key() == key,
{
    let state = resolver.finished[i];
    let packages = solution(state.told);
    let m = choose|m: int| #[trigger] package_at(resolver, state, package, key, m);
    assert(packages[m].0 < resolver.table.len());
    assert(packages[e].0 < resolver.table.len());
    assert(packages[m].0 == packages[e].0);
    assert(m == e);
}

/// Whether a package with an extra is depended on by the other one as a part of it: by the package
/// of the extra, or by the same package with a marker.
spec fn is_part_of(package: PackageView, other: PackageView) -> bool {
    package matches PackageView::Package { name, extra: Some(extra), marker, url } && {
        ||| other == (PackageView::Extra { name, extra, marker, url })
        ||| marker is None && (other matches PackageView::Package {
            name: own,
            extra: Some(own_extra),
            marker: Some(_),
            url: own_url,
        } && own == name && own_extra == extra && own_url == url)
    }
}

/// Only the package of the extra, or the same package with a marker, depends on a package with an
/// extra, and on exactly its own version.
proof fn lemma_extra_listed(listing: Listing, j: int)
    requires
        well_listed(listing, true),
        extras_by_proxy(listing),
        0 <= j < listing.dependencies.len(),
        with_extra(listing.dependencies[j].package),
    ensures
        is_part_of(listing.dependencies[j].package, listing.package),
        listing.dependencies[j].range == exactly(listing.version),
{
    let dependency = listing.dependencies[j];
    let more = unmarked(listing.package, listing.version);
    if listing.package is Extra {
        assert(first_finding(listing.package, listing.version, true) == FindingView::Known(
            listing.dependencies,
        ));
        assert(j == 0 || j == 1);
    } else {
        assert(more.contains(dependency));
        let m = choose|m: int| 0 <= m < more.len() && more[m] == dependency;
        assert(m == 0);
    }
}

/// A package that another one in the solution has as a part comes from that one.
proof fn lemma_comes_from(
    resolver: ResolverView,
    state: SolveView,
    package: PackageView,
    other: PackageView,
    key: VersionKey,
)
    requires
        is_part_of(package, other),
        has_package(resolver, state, other, key),
    ensures
        has_extra_or_marked(resolver, state, package, key),
{
    if let PackageView::Package { marker: Some(marker), .. } = other {
        if let PackageView::Package { name, extra: Some(extra), url, .. } = package {
            assert(has_package(
                resolver,
                state,
                PackageView::Package { name, extra: Some(extra), marker: Some(marker), url },
                key,
            ));
        }
    }
}

/// A package with an extra comes from the package of the extra, or from the same package with a
/// marker, which is resolved at the same version.
#[verifier::spinoff_prover]
proof fn lemma_extra_comes_from(resolver: ResolverView, i: int, e: int)
    requires
        is_plain(resolver, i),
        all_extras_by_proxy(resolver),
        0 <= e < solution(resolver.finished[i].told).len(),
        with_extra(resolver.table[solution(resolver.finished[i].told)[e].0 as int]),
    ensures
        has_extra_or_marked(
            resolver,
            resolver.finished[i],
            resolver.table[solution(resolver.finished[i].told)[e].0 as int],
            solution(resolver.finished[i].told)[e].1.key(),
        ),
{
    let state = resolver.finished[i];
    let packages = solution(state.told);
    let package = resolver.table[packages[e].0 as int];
    let (d, k, a, j) = lemma_needed_by(resolver, i, e);
    let listing = resolver.listed[a];
    let from = listing.package;
    lemma_extra_listed(listing, j);
    lemma_exact_dependency(resolver, i, d, k, listing, j);
    let key = packages[d].1.key();
    lemma_same_entry(resolver, i, package, key, e);
    assert(package_at(resolver, state, from, key, d));
    assert(has_package(resolver, state, from, key));
    lemma_comes_from(resolver, state, package, from, key);
}

/// A named package is resolved together with the plain package of its name and URL, without an
/// extra and without a marker, at the same version, if no requirement stands for a package with an
/// extra itself rather than for the package of the extra.
pub proof fn law_packages_follow_the_plain_one(resolver: ResolverView, i: int, e: int)
    requires
        is_plain(resolver, i),
        all_extras_by_proxy(resolver),
        0 <= e < solution(resolver.finished[i].told).len(),
        resolver.table[solution(resolver.finished[i].told)[e].0 as int].name() is Some,
    ensures
        ({
            let state = resolver.finished[i];
            let (number, version) = solution(state.told)[e];
            let package = resolver.table[number as int];
            has_package(
                resolver,
                state,
                PackageView::Package {
                    name: package.name()->0,
                    extra: None,
                    marker: None,
                    url: package.url(),
                },
                version.key(),
            )
        }),
{
    let state = resolver.finished[i];
    let (number, version) = solution(state.told)[e];
    let package = resolver.table[number as int];
    let key = version.key();
    assert(package_at(resolver, state, package, key, e));
    match package {
        PackageView::Extra { name, extra, marker, url } => {
            lemma_extra_is_plain(resolver, i, name, extra, marker, url, key);
        },
        PackageView::Package { name, extra: None, marker, url } => {
            if let Some(marker) = marker {
                law_marked_packages_follow_the_unmarked(
                    resolver,
                    i,
                    name,
                    None,
                    marker,
                    url,
                    key,
                );
            }
        },
        PackageView::Package { name, extra: Some(extra), marker, url } => {
            lemma_extra_comes_from(resolver, i, e);
            if has_package(resolver, state, PackageView::Extra { name, extra, marker, url }, key) {
                lemma_extra_is_plain(resolver, i, name, extra, marker, url, key);
            } else {
                let other = choose|other: Seq<char>| #[trigger]
                    has_package(
                        resolver,
                        state,
                        PackageView::Package { name, extra: Some(extra), marker: Some(other), url },
                        key,
                    );
                let marked = PackageView::Package {
                    name,
                    extra: Some(extra),
                    marker: Some(other),
                    url,
                };
                let d = choose|d: int| #[trigger] package_at(resolver, state, marked, key, d);
                lemma_extra_comes_from(resolver, i, d);
                lemma_extra_is_plain(resolver, i, name, extra, Some(other), url, key);
            }
        },
        _ => {},
    }
}

/// An extra is resolved together with the plain package of its name and URL.
proof fn lemma_extra_is_plain(
    resolver: ResolverView,
    i: int,
    name: Seq<char>,
    extra: Seq<char>,
    marker: Option<Seq<char>>,
    url: Option<Seq<char>>,
    key: VersionKey,
)
    requires
        is_plain(resolver, i),
        has_package(
            resolver,
            resolver.finished[i],
            PackageView::Extra { name, extra, marker, url },
            key,
        ),
    ensures
        has_package(
            resolver,
            resolver.finished[i],
            PackageView::Package { name, extra: None, marker: None, url },
            key,
        ),
{
    law_extras_follow_their_package(resolver, i, name, extra, marker, url, key);
    if let Some(marker) = marker {
        law_marked_packages_follow_the_unmarked(resolver, i, name, None, marker, url, key);
    }
}

/// For a single environment no package is resolved in two versions: two packages of one name and
/// one URL in a solution, with or without extras and markers, have the same version, if no
/// requirement stands for a package with an extra itself rather than for the package of the extra.
pub proof fn law_one_version_per_name(resolver: ResolverView, i: int, d: int, e: int)
    requires
        is_plain(resolver, i),
        all_extras_by_proxy(resolver),
        0 <= d < solution(resolver.finished[i].told).len(),
        0 <= e < solution(resolver.finished[i].told).len(),
        ({
            let one = resolver.table[solution(resolver.finished[i].told)[d].0 as int];
            let other = resolver.table[solution(resolver.finished[i].told)[e].0 as int];
            &&& one.name() is Some
            &&& one.name() == other.name()
            &&& one.url() == other.url()
        }),
    ensures
        solution(resolver.finished[i].told)[d].1.key() == solution(
            resolver.finished[i].told,
        )[e].1.key(),
{
    let state = resolver.finished[i];
    let packages = solution(state.told);
    law_packages_follow_the_plain_one(resolver, i, d);
    law_packages_follow_the_plain_one(resolver, i, e);
    let one = resolver.table[packages[d].0 as int];
    let plain = PackageView::Package {
        name: one.name()->0,
        extra: None,
        marker: None,
        url: one.url(),
    };
    let m = choose|m: int|
        #[trigger] package_at(resolver, state, plain, packages[d].1.key(), m);
    lemma_same_entry(resolver, i, plain, packages[e].1.key(), m);
}

} // verus!
