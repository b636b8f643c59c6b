use vstd::prelude::*;

use crate::collections::{
    forms, lemma_push_set, new_forms, option_duplicate, option_form, option_key, option_same,
    Copied, Keyed, KeyedMap, KeyedSet,
};
use crate::dist::ResolvedDist;
use crate::package::{ExtraName, PackageName, PackageTable, PackageView, PubGrubPackage};
use crate::pep440::{pep440_parts, written};
use crate::range::segments_have;
use crate::solver::{
    decided, dependency_records, mentioned, pubgrub_extract_solution, pubgrub_incompatibilities,
    reached, record_view, record_views, records_all, records_only, solution, told, DependencyRecord,
    RecordView, Solver, Told,
};
use crate::version::{Version, VersionKey, VersionParts};

verus! {

impl Copied for ResolvedDist {
    fn copied(&self) -> (copy: Self) {
        self.clone()
    }
}

/// The distributions that were chosen, by the name of the package and its version.
pub struct FilePins {
    pins: KeyedMap<(PackageName, Version), ResolvedDist>,
}

impl View for FilePins {
    type V = Map<(Seq<char>, VersionKey), ResolvedDist>;

    closed spec fn view(&self) -> Map<(Seq<char>, VersionKey), ResolvedDist> {
        self.pins@
    }
}

impl FilePins {
    /// Whether no package is pinned twice at one version.
    pub closed spec fn wf(&self) -> bool {
        self.pins.wf()
    }

    /// No distributions.
    pub fn new() -> (pins: Self)
        ensures
            pins.wf(),
            pins@ == Map::<(Seq<char>, VersionKey), ResolvedDist>::empty(),
    {
        FilePins { pins: KeyedMap::new() }
    }

    /// Pin a package at a version to a distribution.
    pub fn insert(&mut self, name: &PackageName, version: &Version, dist: ResolvedDist)
        requires
            old(self).wf(),
            version@.valid(),
        ensures
            final(self).wf(),
            final(self)@ == old(self)@.insert((name@, version@.key()), dist),
    {
        let key = (name.clone(), version.clone());
        assert(key.key() == (name@, version@.key()));
        self.pins.insert(key, dist);
    }

    /// The distribution that a package is pinned to at a version.
    pub fn get(&self, name: &PackageName, version: &Version) -> (dist: Option<&ResolvedDist>)
        requires
            self.wf(),
            version@.valid(),
        ensures
            dist is Some <==> self@.dom().contains((name@, version@.key())),
            dist matches Some(dist) ==> *dist == self@[(name@, version@.key())],
    {
        let key = (name.clone(), version.clone());
        assert(key.key() == (name@, version@.key()));
        self.pins.get(&key)
    }

    /// Take over every pin of another set of pins.
    pub fn union(&mut self, other: FilePins)
        requires
            old(self).wf(),
            other.wf(),
        ensures
            final(self).wf(),
            final(self)@ == old(self)@.union_prefer_right(other@),
    {
        self.pins.extend(other.pins);
    }

    /// The same pins again.
    pub fn duplicate(&self) -> (copy: Self)
        requires
            self.wf(),
        ensures
            copy.wf(),
            copy@ == self@,
    {
        FilePins { pins: self.pins.duplicate() }
    }
}

/// The names of two packages, of which one depends on the other.
#[derive(Debug)]
pub struct ResolutionDependencyNames {
    pub from: PackageName,
    pub to: PackageName,
}

/// The versions and extras of two packages, of which one depends on the other.
#[derive(Debug)]
pub struct ResolutionDependencyVersions {
    pub from_version: Version,
    pub from_extra: Option<ExtraName>,
    pub to_version: Version,
    pub to_extra: Option<ExtraName>,
}

/// What tells two [`ResolutionDependencyNames`] apart.
pub struct NamesKey {
    pub from: Seq<char>,
    pub to: Seq<char>,
}

/// What tells two [`ResolutionDependencyVersions`] apart.
pub struct VersionsKey {
    pub from_version: VersionKey,
    pub from_extra: Option<Seq<char>>,
    pub to_version: VersionKey,
    pub to_extra: Option<Seq<char>>,
}

/// What a [`ResolutionDependencyVersions`] holds.
pub struct VersionsForm {
    pub from_version: VersionParts,
    pub from_extra: Option<Seq<char>>,
    pub to_version: VersionParts,
    pub to_extra: Option<Seq<char>>,
}

impl VersionsForm {
    /// What tells it apart from others.
    pub open spec fn key(self) -> VersionsKey {
        VersionsKey {
            from_version: self.from_version.key(),
            from_extra: self.from_extra,
            to_version: self.to_version.key(),
            to_extra: self.to_extra,
        }
    }
}

impl Keyed for ResolutionDependencyNames {
    type Key = NamesKey;
    type Form = NamesKey;

    open spec fn key(&self) -> NamesKey {
        NamesKey { from: self.from@, to: self.to@ }
    }

    open spec fn form(&self) -> NamesKey {
        NamesKey { from: self.from@, to: self.to@ }
    }

    open spec fn comparable(&self) -> bool {
        true
    }

    fn same(&self, other: &Self) -> (equal: bool) {
        self.from == other.from && self.to == other.to
    }

    fn duplicate(&self) -> (copy: Self) {
        ResolutionDependencyNames { from: self.from.clone(), to: self.to.clone() }
    }
}

impl Keyed for ResolutionDependencyVersions {
    type Key = VersionsKey;
    type Form = VersionsForm;

    open spec fn key(&self) -> VersionsKey {
        self.form().key()
    }

    open spec fn form(&self) -> VersionsForm {
        VersionsForm {
            from_version: self.from_version@,
            from_extra: option_form(self.from_extra),
            to_version: self.to_version@,
            to_extra: option_form(self.to_extra),
        }
    }

    open spec fn comparable(&self) -> bool {
        self.from_version@.valid() && self.to_version@.valid()
    }

    fn same(&self, other: &Self) -> (equal: bool) {
        self.from_version.same(&other.from_version) && option_same(
            &self.from_extra,
            &other.from_extra,
        ) && self.to_version.same(&other.to_version) && option_same(
            &self.to_extra,
            &other.to_extra,
        )
    }

    fn duplicate(&self) -> (copy: Self) {
        ResolutionDependencyVersions {
            from_version: self.from_version.clone(),
            from_extra: option_duplicate(&self.from_extra),
            to_version: self.to_version.clone(),
            to_extra: option_duplicate(&self.to_extra),
        }
    }
}

/// A set of pinned versions.
pub struct Resolution {
    /// Each package, with each of its versions.
    pub packages: KeyedSet<(PubGrubPackage, Version)>,
    /// Which package depends on which, by their names, with the versions and extras of both.
    pub dependencies: KeyedSet<(ResolutionDependencyNames, ResolutionDependencyVersions)>,
    /// The distributions that were chosen.
    pub pins: FilePins,
}

impl Resolution {
    /// Whether nothing in the resolution is there twice.
    pub open spec fn wf(&self) -> bool {
        self.packages.wf() && self.dependencies.wf() && self.pins.wf()
    }

    /// The resolution that holds nothing.
    pub fn new() -> (resolution: Self)
        ensures
            resolution.wf(),
            resolution.packages.in_order() == Seq::<(PubGrubPackage, Version)>::empty(),
            resolution.packages@ == Set::<(PackageView, VersionKey)>::empty(),
            resolution.dependencies.in_order() == Seq::<
                (ResolutionDependencyNames, ResolutionDependencyVersions),
            >::empty(),
            resolution.dependencies@ == Set::<(NamesKey, VersionsKey)>::empty(),
            resolution.pins@ == Map::<(Seq<char>, VersionKey), ResolvedDist>::empty(),
    {
        Resolution {
            packages: KeyedSet::new(),
            dependencies: KeyedSet::new(),
            pins: FilePins::new(),
        }
    }

    /// Take over everything from another resolution that is not there yet.
    pub fn union(&mut self, other: Resolution)
        requires
            old(self).wf(),
            other.wf(),
        ensures
            final(self).wf(),
            final(self).packages@ == old(self).packages@.union(other.packages@),
            final(self).dependencies@ == old(self).dependencies@.union(other.dependencies@),
            final(self).pins@ == old(self).pins@.union_prefer_right(other.pins@),
            forms(final(self).packages.in_order()) == forms(old(self).packages.in_order())
                + new_forms(old(self).packages@, other.packages.in_order()),
            forms(final(self).dependencies.in_order()) == forms(old(self).dependencies.in_order())
                + new_forms(old(self).dependencies@, other.dependencies.in_order()),
    {
        self.packages.extend(other.packages);
        self.dependencies.extend(other.dependencies);
        self.pins.union(other.pins);
    }
}

/// The dependency of one package in a solution on another, if it is one that a resolution lists:
/// between two named packages with different names.
pub open spec fn edge_form(
    package: PackageView,
    version: VersionParts,
    dependency: PackageView,
    dependency_version: VersionParts,
) -> Option<(NamesKey, VersionsForm)> {
    match package {
        PackageView::Package { name, extra, .. } => {
            let (to, to_extra) = match dependency {
                PackageView::Package { name: to, extra: to_extra, .. } => (Some(to), to_extra),
                PackageView::Extra { name: to, extra: to_extra, .. } => (Some(to), Some(to_extra)),
                _ => (None, None),
            };
            if to is Some && to->0 != name {
                Some(
                    (
                        NamesKey { from: name, to: to->0 },
                        VersionsForm {
                            from_version: version,
                            from_extra: extra,
                            to_version: dependency_version,
                            to_extra,
                        },
                    ),
                )
            } else {
                None
            }
        },
        _ => None,
    }
}

/// What tells the dependency of one package in a solution on another apart from others.
pub open spec fn edge_between(
    package: PackageView,
    version: VersionParts,
    dependency: PackageView,
    dependency_version: VersionParts,
) -> Option<(NamesKey, VersionsKey)> {
    match edge_form(package, version, dependency, dependency_version) {
        Some((names, versions)) => Some((names, versions.key())),
        None => None,
    }
}

/// Whether a record says that the package at the version depends on the other one at its version.
pub open spec fn record_applies(
    record: RecordView,
    entry: (u64, VersionParts),
    dependency: (u64, VersionParts),
) -> bool {
    &&& record.package == entry.0
    &&& segments_have(record.range, entry.1.key())
    &&& record.dependency == dependency.0
    &&& segments_have(record.dependency_range, dependency.1.key())
}

/// Whether record `k` of the package at `i` of the solution gives the edge, to the package at `j`.
pub open spec fn edge_at(
    told: Seq<Told>,
    table: Seq<PackageView>,
    i: int,
    k: int,
    j: int,
    edge: (NamesKey, VersionsKey),
) -> bool {
    let packages = solution(told);
    let records = dependency_records(told, packages[i].0);
    &&& 0 <= i < packages.len()
    &&& 0 <= k < records.len()
    &&& 0 <= j < packages.len()
    &&& records[k] matches Some(record) && record_applies(record, packages[i], packages[j])
    &&& edge_between(
        table[packages[i].0 as int],
        packages[i].1,
        table[packages[j].0 as int],
        packages[j].1,
    ) == Some(edge)
}

/// Whether record `k` of the package at `i` of the solution gives the edge to the package at `j`,
/// as it is written.
pub open spec fn edge_written_at(
    told: Seq<Told>,
    table: Seq<PackageView>,
    i: int,
    k: int,
    j: int,
    edge: (NamesKey, VersionsForm),
) -> bool {
    let packages = solution(told);
    &&& edge_at(told, table, i, k, j, (edge.0, edge.1.key()))
    &&& edge_form(
        table[packages[i].0 as int],
        packages[i].1,
        table[packages[j].0 as int],
        packages[j].1,
    ) == Some(edge)
}

/// Whether the solution has the edge, as it is written.
pub open spec fn has_edge_written(
    told: Seq<Told>,
    table: Seq<PackageView>,
    edge: (NamesKey, VersionsForm),
) -> bool {
    exists|i: int, k: int, j: int| #[trigger] edge_written_at(told, table, i, k, j, edge)
}

/// The packages of the solution, each with its version as it is written.
pub open spec fn solved_forms(told: Seq<Told>, table: Seq<PackageView>) -> Seq<
    (PackageView, VersionParts),
> {
    solution(told).map_values(|entry: (u64, VersionParts)| (table[entry.0 as int], entry.1))
}

/// Whether the records of every package in the solution hold exactly the dependencies that were
/// told.
pub open spec fn all_recorded(told: Seq<Told>) -> bool {
    let packages = solution(told);
    forall|i: int|
        0 <= i < packages.len() ==> is_recorded(told, (#[trigger] packages[i]).0)
}

/// Whether the records of the package hold exactly the dependencies that were told.
pub open spec fn is_recorded(told: Seq<Told>, package: u64) -> bool {
    &&& records_all(dependency_records(told, package), told, package)
    &&& records_only(dependency_records(told, package), told)
}

/// Whether the solution has the edge.
pub open spec fn has_edge(
    told: Seq<Told>,
    table: Seq<PackageView>,
    edge: (NamesKey, VersionsKey),
) -> bool {
    exists|i: int, k: int, j: int| #[trigger] edge_at(told, table, i, k, j, edge)
}

/// The packages of the solution, each with its version.
pub open spec fn solved_packages(told: Seq<Told>, table: Seq<PackageView>) -> Seq<
    (PackageView, VersionKey),
> {
    solution(told).map_values(
        |entry: (u64, VersionParts)| (table[entry.0 as int], entry.1.key()),
    )
}

/// Whether every package that the solver was told of has an entry in a table of `n` packages, and
/// every version that it decided on can be written and is no edge of a release.
pub open spec fn accounted(told: Seq<Told>, n: nat) -> bool {
    &&& forall|package: u64| #[trigger] mentioned(told, package) ==> package < n
    &&& forall|package: u64, version: VersionParts| #[trigger]
        decided(told, package, version) ==> version.valid() && version.edge is Within
}

/// The solution, each package by its number.
fn solved(solver: &Solver, Ghost(n): Ghost<nat>) -> (packages: Vec<(u64, Version)>)
    requires
        accounted(told(*solver), n),
    ensures
        packages@.map_values(|entry: (u64, Version)| (entry.0, entry.1@)) == solution(
            told(*solver),
        ),
        forall|i: int|
            #![trigger packages@[i]]
            0 <= i < packages@.len() ==> packages@[i].0 < n && packages@[i].1@.valid()
                && reached(told(*solver), packages@[i].0) && decided(
                told(*solver),
                packages@[i].0,
                packages@[i].1@,
            ),
        forall|i: int, j: int|
            0 <= i < j < packages@.len() ==> (#[trigger] packages@[i]).0 != (
            #[trigger] packages@[j]).0,
{
    let extracted = pubgrub_extract_solution(solver);
    let mut packages: Vec<(u64, Version)> = Vec::new();
    for i in 0..extracted.len()
        invariant
            accounted(told(*solver), n),
            packages@.len() == i,
            forall|j: int|
                #![trigger extracted@[j]]
                0 <= j < extracted@.len() ==> {
                    &&& reached(told(*solver), extracted@[j].0)
                    &&& mentioned(told(*solver), extracted@[j].0)
                    &&& decided(told(*solver), extracted@[j].0, written(extracted@[j].1))
                },
            forall|j: int|
                #![trigger packages@[j]]
                0 <= j < i ==> packages@[j].0 == extracted@[j].0 && packages@[j].1@ == written(
                    extracted@[j].1,
                ),
    {
        assert(decided(told(*solver), extracted@[i as int].0, written(extracted@[i as int].1)));
        packages.push((extracted[i].0, pep440_parts(&extracted[i].1)));
    }
    proof {
        let left = packages@.map_values(|entry: (u64, Version)| (entry.0, entry.1@));
        let right = solution(told(*solver));
        assert forall|i: int| 0 <= i < left.len() implies #[trigger] left[i] == right[i] by {
            assert(packages@[i].0 == extracted@[i].0);
        }
        assert(left =~= right);
        assert forall|i: int|
            #![trigger packages@[i]]
            0 <= i < packages@.len() implies packages@[i].0 < n && packages@[i].1@.valid()
            && reached(told(*solver), packages@[i].0) && decided(
            told(*solver),
            packages@[i].0,
            packages@[i].1@,
        ) by {
            assert(mentioned(told(*solver), extracted@[i].0));
            assert(decided(told(*solver), extracted@[i].0, written(extracted@[i].1)));
        }
        assert forall|i: int, j: int| 0 <= i < j < packages@.len() implies (
        #[trigger] packages@[i]).0 != (#[trigger] packages@[j]).0 by {
            assert(extracted@[i].0 != extracted@[j].0);
        }
    }
    packages
}

/// The dependency of one package on another, if it is one that a resolution lists.
fn edge(
    package: &PubGrubPackage,
    version: &Version,
    dependency: &PubGrubPackage,
    dependency_version: &Version,
) -> (edge: Option<(ResolutionDependencyNames, ResolutionDependencyVersions)>)
    requires
        version@.valid(),
        dependency_version@.valid(),
    ensures
        option_form(edge) == edge_form(package@, version@, dependency@, dependency_version@),
        option_key(edge) == edge_between(
            package@,
            version@,
            dependency@,
            dependency_version@,
        ),
        edge matches Some(edge) ==> edge.comparable(),
{
    let (name, from_extra) = match package {
        PubGrubPackage::Package { name, extra, .. } => (name, extra),
        _ => {
            return None;
        },
    };
    let (to, to_extra) = match dependency {
        PubGrubPackage::Package { name: to, extra, .. } => (to, option_duplicate(extra)),
        PubGrubPackage::Extra { name: to, extra, .. } => (to, Some(extra.clone())),
        _ => {
            return None;
        },
    };
    if *name == *to {
        return None;
    }
    Some(
        (
            ResolutionDependencyNames { from: name.clone(), to: to.clone() },
            ResolutionDependencyVersions {
                from_version: version.clone(),
                from_extra: option_duplicate(from_extra),
                to_version: dependency_version.clone(),
                to_extra,
            },
        ),
    )
}

/// What a finished solver decided: the packages of its solution, which of them depend on which by
/// the dependencies that it was told of, and the distributions they are pinned to.
#[verifier::spinoff_prover]
pub(crate) fn into_resolution(solver: Solver, table: &PackageTable, pins: FilePins) -> (resolution:
    Resolution)
    requires
        accounted(told(solver), table@.len()),
        table.wf(),
        pins.wf(),
    ensures
        resolution.wf(),
        resolution.packages@ == solved_packages(told(solver), table@).to_set(),
        forall|edge: (NamesKey, VersionsKey)| #[trigger]
            resolution.dependencies@.contains(edge) == has_edge(told(solver), table@, edge),
        resolution.pins@ == pins@,
        all_recorded(told(solver)),
        forms(resolution.packages.in_order()) == solved_forms(told(solver), table@),
        forall|i: int|
            0 <= i < resolution.dependencies.in_order().len() ==> has_edge_written(
                told(solver),
                table@,
                (#[trigger] resolution.dependencies.in_order()[i]).form(),
            ),
        forall|i: int|
            #![trigger solution(told(solver))[i]]
            0 <= i < solution(told(solver)).len() ==> solution(told(solver))[i].0 < table@.len()
                && decided(
                told(solver),
                solution(told(solver))[i].0,
                solution(told(solver))[i].1,
            ),
        forall|i: int, j: int|
            0 <= i < j < solution(told(solver)).len() ==> (#[trigger] solution(told(solver))[i]).0
                != (#[trigger] solution(told(solver))[j]).0,
        forall|package: PackageView, one: VersionKey, other: VersionKey|
            #![trigger resolution.packages@.contains((package, one)), resolution.packages@.contains((package, other))]
            resolution.packages@.contains((package, one)) && resolution.packages@.contains(
                (package, other),
            ) ==> one == other,
{
    let mut solver = solver;
    let ghost history = told(solver);
    let ghost list = solution(history);
    let packages = solved(&solver, Ghost(table@.len()));
    let mut found: KeyedSet<(PubGrubPackage, Version)> = KeyedSet::new();
    let mut dependencies: KeyedSet<(ResolutionDependencyNames, ResolutionDependencyVersions)> =
        KeyedSet::new();
    let ghost entries = solved_packages(history, table@);
    let ghost texts = solved_forms(history, table@);
    assert(forms(found.in_order()) =~= texts.take(0));
    assert(found@ =~= entries.take(0).to_set());
    for i in 0..packages.len()
        invariant
            told(solver) == history,
            list == solution(history),
            list == packages@.map_values(|entry: (u64, Version)| (entry.0, entry.1@)),
            entries == solved_packages(history, table@),
            texts == solved_forms(history, table@),
            table@.no_duplicates(),
            forms(found.in_order()) == texts.take(i as int),
            forall|j: int|
                0 <= j < i ==> is_recorded(history, (#[trigger] packages@[j]).0),
            forall|x: int|
                0 <= x < dependencies.in_order().len() ==> has_edge_written(
                    history,
                    table@,
                    (#[trigger] dependencies.in_order()[x]).form(),
                ),
            found.wf(),
            dependencies.wf(),
            forall|j: int|
                #![trigger packages@[j]]
                0 <= j < packages@.len() ==> packages@[j].0 < table@.len()
                    && packages@[j].1@.valid() && reached(
                    history,
                    packages@[j].0,
                ) && decided(history, packages@[j].0, packages@[j].1@),
            forall|j: int, k: int|
                0 <= j < k < packages@.len() ==> (#[trigger] packages@[j]).0 != (
                #[trigger] packages@[k]).0,
            found@ == entries.take(i as int).to_set(),
            forall|e: (NamesKey, VersionsKey)| #[trigger]
                dependencies@.contains(e) == (exists|a: int, k: int, b: int|
                    a < i && #[trigger] edge_at(history, table@, a, k, b, e)),
    {
        let (package, version) = &packages[i];
        let view = table.get(*package);
        assert(list[i as int] == (*package, version@));
        let pair = (view.clone(), version.clone());
        assert(entries[i as int] == pair.key());
        let ghost before = found.in_order();
        proof {
            if found@.contains(pair.key()) {
                let j = choose|j: int| 0 <= j < i && entries.take(i as int)[j] == pair.key();
                assert(list[j] == (packages@[j].0, packages@[j].1@));
                assert(table@[packages@[j].0 as int] == table@[*package as int]);
                assert(packages@[j].0 == packages@[i as int].0);
            }
        }
        found.insert(pair);
        proof {
            assert(texts[i as int] == pair.form());
            assert(forms(found.in_order()) =~= forms(before).push(pair.form()));
            assert(texts.take(i + 1) =~= texts.take(i as int).push(texts[i as int]));
            assert(entries.take(i + 1) =~= entries.take(i as int).push(entries[i as int]));
            lemma_push_set(entries.take(i as int), entries[i as int]);
        }
        let records = pubgrub_incompatibilities(&mut solver, *package);
        let ghost kinds = dependency_records(history, *package);
        assert(record_views(records@) == kinds);
        assert(is_recorded(history, packages@[i as int].0));
        for k in 0..records.len()
            invariant
                told(solver) == history,
                list == solution(history),
                list == packages@.map_values(|entry: (u64, Version)| (entry.0, entry.1@)),
                0 <= i < packages@.len(),
                list[i as int] == (*package, version@),
                version@.valid(),
                view@ == table@[*package as int],
                kinds == dependency_records(history, *package),
                records@.map_values(
                    |record: Option<DependencyRecord>| record_view(record),
                ) == kinds,
                dependencies.wf(),
                forall|x: int|
                    0 <= x < dependencies.in_order().len() ==> has_edge_written(
                        history,
                        table@,
                        (#[trigger] dependencies.in_order()[x]).form(),
                    ),
                forall|j: int|
                    #![trigger packages@[j]]
                    0 <= j < packages@.len() ==> packages@[j].0 < table@.len()
                        && packages@[j].1@.valid(),
                forall|j: int, l: int|
                    0 <= j < l < packages@.len() ==> (#[trigger] packages@[j]).0 != (
                    #[trigger] packages@[l]).0,
                forall|e: (NamesKey, VersionsKey)| #[trigger]
                    dependencies@.contains(e) == (exists|a: int, l: int, b: int|
                        (a < i || (a == i && l < k)) && #[trigger] edge_at(
                            history,
                            table@,
                            a,
                            l,
                            b,
                            e,
                        )),
        {
            assert(kinds[k as int] == record_view(records@[k as int]));
            let ghost before = dependencies@;
            let mut added: Ghost<Option<(NamesKey, VersionsKey)>> = Ghost(None);
            let mut at: Ghost<int> = Ghost(0);
            if let Some(record) = &records[k] {
                if record.package == *package && record.range.contains(version) {
                    let mut target: Option<usize> = None;
                    for j in 0..packages.len()
                        invariant
                            target is None ==> forall|l: int|
                                0 <= l < j ==> (#[trigger] packages@[l]).0 != record.dependency,
                            target matches Some(l) ==> l < packages@.len() && packages@[l as int].0
                                == record.dependency,
                    {
                        if packages[j].0 == record.dependency {
                            target = Some(j);
                        }
                    }
                    if let Some(j) = target {
                        let (dependency, dependency_version) = &packages[j];
                        assert(list[j as int] == (*dependency, dependency_version@));
                        if record.dependency_range.contains(dependency_version) {
                            let dependency_view = table.get(*dependency);
                            if let Some(edge) = edge(
                                &view,
                                version,
                                &dependency_view,
                                dependency_version,
                            ) {
                                proof {
                                    added@ = Some(edge.key());
                                    at@ = j as int;
                                    assert(edge_at(
                                        history,
                                        table@,
                                        i as int,
                                        k as int,
                                        j as int,
                                        edge.key(),
                                    ));
                                    assert(edge_written_at(
                                        history,
                                        table@,
                                        i as int,
                                        k as int,
                                        j as int,
                                        edge.form(),
                                    ));
                                }
                                dependencies.insert(edge);
                            }
                        }
                    }
                }
            }
            proof {
                assert forall|e: (NamesKey, VersionsKey)| #[trigger]
                    dependencies@.contains(e) == (exists|a: int, l: int, b: int|
                        (a < i || (a == i && l < k + 1)) && #[trigger] edge_at(
                            history,
                            table@,
                            a,
                            l,
                            b,
                            e,
                        )) by {
                    assert(dependencies@.contains(e) == (before.contains(e) || added@ == Some(e)));
                    assert forall|b: int| #[trigger]
                        edge_at(history, table@, i as int, k as int, b, e) implies added@
                        == Some(e) by {
                        assert(list[b] == (packages@[b].0, packages@[b].1@));
                    }
                }
            }
        }
        proof {
            assert forall|e: (NamesKey, VersionsKey)| #[trigger]
                dependencies@.contains(e) == (exists|a: int, k: int, b: int|
                    a < i + 1 && #[trigger] edge_at(history, table@, a, k, b, e)) by {
                if exists|a: int, k: int, b: int|
                    a < i + 1 && #[trigger] edge_at(history, table@, a, k, b, e) {
                    let (a, k, b) = choose|a: int, k: int, b: int|
                        a < i + 1 && #[trigger] edge_at(history, table@, a, k, b, e);
                    assert((a < i || (a == i && k < records@.len())) && edge_at(
                        history,
                        table@,
                        a,
                        k,
                        b,
                        e,
                    ));
                }
            }
        }
    }
    proof {
        assert forall|i: int| #![trigger list[i]] 0 <= i < list.len() implies list[i].0
            < table@.len() && decided(history, list[i].0, list[i].1) by {
            assert(list[i] == (packages@[i].0, packages@[i].1@));
        }
        assert forall|i: int, j: int| 0 <= i < j < list.len() implies (#[trigger] list[i]).0 != (
        #[trigger] list[j]).0 by {
            assert(list[i] == (packages@[i].0, packages@[i].1@));
            assert(list[j] == (packages@[j].0, packages@[j].1@));
        }
        assert(texts.take(texts.len() as int) =~= texts);
        assert forall|i: int| 0 <= i < list.len() implies is_recorded(
            history,
            (#[trigger] list[i]).0,
        ) by {
            assert(list[i] == (packages@[i].0, packages@[i].1@));
            assert(is_recorded(history, packages@[i].0));
        }
        assert(entries.take(entries.len() as int) =~= entries);
        assert forall|package: PackageView, one: VersionKey, other: VersionKey|
            #![trigger found@.contains((package, one)), found@.contains((package, other))]
            found@.contains((package, one)) && found@.contains((package, other)) implies one
            == other by {
            let a = choose|a: int| 0 <= a < entries.len() && entries[a] == (package, one);
            let b = choose|b: int| 0 <= b < entries.len() && entries[b] == (package, other);
            assert(list[a] == (packages@[a].0, packages@[a].1@));
            assert(list[b] == (packages@[b].0, packages@[b].1@));
            assert(table@[packages@[a].0 as int] == table@[packages@[b].0 as int]);
            assert(packages@[a].0 == packages@[b].0);
        }
    }
    Resolution { packages: found, dependencies, pins }
}

} // verus!
