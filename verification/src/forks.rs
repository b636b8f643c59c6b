use vstd::prelude::*;

use crate::availability::UnavailableVersion;
use crate::collections::Keyed;
use crate::package::{PackageName, PackageView, PubGrubPackage};
use crate::range::{segment_keys, EndKey, Range, Segment};

verus! {

/// A dependency on a package, in a range of versions.
pub struct Dependency {
    pub package: PubGrubPackage,
    pub range: Range,
}

/// What a [`Dependency`] holds.
pub struct DependencyView {
    pub package: PackageView,
    pub range: Seq<Segment>,
}

impl View for Dependency {
    type V = DependencyView;

    open spec fn view(&self) -> DependencyView {
        DependencyView { package: self.package@, range: self.range@ }
    }
}

impl Clone for Dependency {
    fn clone(&self) -> (copy: Self)
        ensures
            copy@ == self@,
    {
        Dependency { package: self.package.clone(), range: self.range.clone() }
    }
}

/// The dependencies of a package at a version.
pub enum Dependencies {
    /// Package dependencies are not available.
    Unavailable(UnavailableVersion),
    /// Container for all available package versions.
    Available(Vec<Dependency>),
}

/// What the dependencies hold, in order.
pub open spec fn dependency_list(dependencies: Seq<Dependency>) -> Seq<DependencyView> {
    dependencies.map_values(|dependency: Dependency| dependency@)
}

/// What each list of dependencies holds, in order.
pub open spec fn dependency_lists(forks: Seq<Vec<Dependency>>) -> Seq<Seq<DependencyView>> {
    forks.map_values(|fork: Vec<Dependency>| dependency_list(fork@))
}

impl DependencyView {
    /// The name of the package that is depended on.
    pub open spec fn name(self) -> Seq<char> {
        self.package.name()->0
    }

    /// What tells the range of the dependency apart from other ranges.
    pub open spec fn range_key(self) -> Seq<(EndKey, EndKey)> {
        segment_keys(self.range)
    }
}

/// Whether every dependency is on a package with a name: neither the root nor Python is ever
/// depended on by a package.
pub open spec fn all_named(dependencies: Seq<DependencyView>) -> bool {
    forall|i: int| 0 <= i < dependencies.len() ==> (#[trigger] dependencies[i]).package.name() is Some
}

/// The names of the packages that are depended on, each once, in the order in which they come.
pub open spec fn names_of(dependencies: Seq<DependencyView>) -> Seq<Seq<char>>
    decreases dependencies.len(),
{
    if dependencies.len() == 0 {
        Seq::empty()
    } else {
        let names = names_of(dependencies.drop_last());
        if names.contains(dependencies.last().name()) {
            names
        } else {
            names.push(dependencies.last().name())
        }
    }
}

/// The ranges in which a package is depended on, each once, in the order in which they come.
pub open spec fn ranges_of(dependencies: Seq<DependencyView>, name: Seq<char>) -> Seq<
    Seq<(EndKey, EndKey)>,
>
    decreases dependencies.len(),
{
    if dependencies.len() == 0 {
        Seq::empty()
    } else {
        let ranges = ranges_of(dependencies.drop_last(), name);
        let last = dependencies.last();
        if last.name() == name && !ranges.contains(last.range_key()) {
            ranges.push(last.range_key())
        } else {
            ranges
        }
    }
}

/// The dependencies on a package in a range, in the order in which they come.
pub open spec fn members(
    dependencies: Seq<DependencyView>,
    name: Seq<char>,
    range: Seq<(EndKey, EndKey)>,
) -> Seq<DependencyView>
    decreases dependencies.len(),
{
    if dependencies.len() == 0 {
        Seq::empty()
    } else {
        let before = members(dependencies.drop_last(), name, range);
        let last = dependencies.last();
        if last.name() == name && last.range_key() == range {
            before.push(last)
        } else {
            before
        }
    }
}

/// Each fork, with more dependencies at its end.
pub open spec fn extend_all(
    forks: Seq<Seq<DependencyView>>,
    more: Seq<DependencyView>,
) -> Seq<Seq<DependencyView>> {
    forks.map_values(|fork: Seq<DependencyView>| fork + more)
}

/// Each fork, once for each of the ranges in which the package is depended on.
pub open spec fn branch(
    forks: Seq<Seq<DependencyView>>,
    dependencies: Seq<DependencyView>,
    name: Seq<char>,
    ranges: Seq<Seq<(EndKey, EndKey)>>,
) -> Seq<Seq<DependencyView>>
    decreases ranges.len(),
{
    if ranges.len() == 0 {
        Seq::empty()
    } else {
        branch(forks, dependencies, name, ranges.drop_last()) + extend_all(
            forks,
            members(dependencies, name, ranges.last()),
        )
    }
}

/// The forks over the packages with the given names.
pub open spec fn forks_over(
    dependencies: Seq<DependencyView>,
    names: Seq<Seq<char>>,
) -> Seq<Seq<DependencyView>>
    decreases names.len(),
{
    if names.len() == 0 {
        seq![Seq::empty()]
    } else {
        branch(
            forks_over(dependencies, names.drop_last()),
            dependencies,
            names.last(),
            ranges_of(dependencies, names.last()),
        )
    }
}

/// The forks of a list of dependencies.
pub open spec fn forks_of(dependencies: Seq<DependencyView>) -> Seq<Seq<DependencyView>> {
    forks_over(dependencies, names_of(dependencies))
}

/// The name of the package that is depended on.
fn dependency_name(dependency: &Dependency) -> (name: PackageName)
    requires
        dependency@.package.name() is Some,
    ensures
        name@ == dependency@.name(),
{
    match &dependency.package {
        PubGrubPackage::Package { name, .. } => name.clone(),
        PubGrubPackage::Extra { name, .. } => name.clone(),
        PubGrubPackage::Root(_) => String::new(),
        PubGrubPackage::Python(_) => String::new(),
    }
}

/// The names, as they are written.
pub open spec fn name_list(names: Seq<PackageName>) -> Seq<Seq<char>> {
    names.map_values(|name: PackageName| name@)
}

/// The names of the packages that are depended on, each once.
fn distinct_names(dependencies: &Vec<Dependency>) -> (names: Vec<PackageName>)
    requires
        all_named(dependency_list(dependencies@)),
    ensures
        name_list(names@) == names_of(dependency_list(dependencies@)),
{
    let ghost list = dependency_list(dependencies@);
    let mut names: Vec<PackageName> = Vec::new();
    assert(name_list(names@) =~= names_of(list.take(0)));
    for i in 0..dependencies.len()
        invariant
            list == dependency_list(dependencies@),
            all_named(list),
            name_list(names@) == names_of(list.take(i as int)),
    {
        assert(list[i as int] == dependencies@[i as int]@);
        assert(list.take(i + 1).drop_last() =~= list.take(i as int));
        let name = dependency_name(&dependencies[i]);
        let ghost before = name_list(names@);
        let mut found = false;
        for j in 0..names.len()
            invariant
                before == name_list(names@),
                found <==> exists|k: int| 0 <= k < j && #[trigger] before[k] == name@,
        {
            assert(before[j as int] == names@[j as int]@);
            if names[j] == name {
                found = true;
            }
        }
        assert(found == before.contains(name@));
        if !found {
            names.push(name);
            assert(name_list(names@) =~= before.push(name@));
        }
    }
    assert(list.take(list.len() as int) =~= list);
    names
}

/// What tells the ranges apart, in order.
pub open spec fn range_keys(ranges: Seq<Range>) -> Seq<Seq<(EndKey, EndKey)>> {
    ranges.map_values(|range: Range| range.key())
}

/// The ranges in which a package is depended on, each once.
fn distinct_ranges(dependencies: &Vec<Dependency>, name: &PackageName) -> (ranges: Vec<Range>)
    requires
        all_named(dependency_list(dependencies@)),
    ensures
        range_keys(ranges@) == ranges_of(dependency_list(dependencies@), name@),
{
    let ghost list = dependency_list(dependencies@);
    let mut ranges: Vec<Range> = Vec::new();
    assert(range_keys(ranges@) =~= ranges_of(list.take(0), name@));
    for i in 0..dependencies.len()
        invariant
            list == dependency_list(dependencies@),
            all_named(list),
            range_keys(ranges@) == ranges_of(list.take(i as int), name@),
    {
        let dependency = &dependencies[i];
        assert(list[i as int] == dependency@);
        assert(list.take(i + 1).drop_last() =~= list.take(i as int));
        if dependency_name(dependency) == *name {
            let ghost before = range_keys(ranges@);
            let mut found = false;
            for j in 0..ranges.len()
                invariant
                    before == range_keys(ranges@),
                    found <==> exists|k: int|
                        0 <= k < j && #[trigger] before[k] == dependency.range.key(),
            {
                assert(before[j as int] == ranges@[j as int].key());
                if ranges[j].same(&dependency.range) {
                    found = true;
                }
            }
            assert(found == before.contains(dependency.range.key()));
            if !found {
                let range = dependency.range.clone();
                assert(range.key() == dependency@.range_key());
                ranges.push(range);
                assert(range_keys(ranges@) =~= before.push(dependency@.range_key()));
            }
        }
    }
    assert(list.take(list.len() as int) =~= list);
    ranges
}

/// The dependencies on a package in a range.
fn select_members(
    dependencies: &Vec<Dependency>,
    name: &PackageName,
    range: &Range,
) -> (selected: Vec<Dependency>)
    requires
        all_named(dependency_list(dependencies@)),
    ensures
        dependency_list(selected@) == members(
            dependency_list(dependencies@),
            name@,
            range.key(),
        ),
{
    let ghost list = dependency_list(dependencies@);
    let mut selected: Vec<Dependency> = Vec::new();
    assert(dependency_list(selected@) =~= members(list.take(0), name@, range.key()));
    for i in 0..dependencies.len()
        invariant
            list == dependency_list(dependencies@),
            all_named(list),
            dependency_list(selected@) == members(list.take(i as int), name@, range.key()),
    {
        let dependency = &dependencies[i];
        assert(list[i as int] == dependency@);
        assert(list.take(i + 1).drop_last() =~= list.take(i as int));
        if dependency_name(dependency) == *name && dependency.range.same(range) {
            let ghost before = dependency_list(selected@);
            selected.push(dependency.clone());
            assert(dependency_list(selected@) =~= before.push(dependency@));
        }
    }
    assert(list.take(list.len() as int) =~= list);
    selected
}

/// A copy of a list of dependencies, with more of them at its end.
fn extended(fork: &Vec<Dependency>, more: &Vec<Dependency>) -> (longer: Vec<Dependency>)
    ensures
        dependency_list(longer@) == dependency_list(fork@) + dependency_list(more@),
{
    let mut longer: Vec<Dependency> = Vec::new();
    for i in 0..fork.len()
        invariant
            dependency_list(longer@) == dependency_list(fork@).take(i as int),
    {
        let ghost before = dependency_list(longer@);
        longer.push(fork[i].clone());
        assert(dependency_list(longer@) =~= before.push(fork@[i as int]@));
        assert(dependency_list(longer@) =~= dependency_list(fork@).take(i + 1));
    }
    let ghost start = dependency_list(fork@);
    assert(dependency_list(longer@) =~= start + dependency_list(more@).take(0));
    for i in 0..more.len()
        invariant
            dependency_list(longer@) == start + dependency_list(more@).take(i as int),
    {
        let ghost before = dependency_list(longer@);
        longer.push(more[i].clone());
        assert(dependency_list(longer@) =~= before.push(more@[i as int]@));
        assert(dependency_list(longer@) =~= start + dependency_list(more@).take(i + 1));
    }
    assert(dependency_list(more@).take(more@.len() as int) =~= dependency_list(more@));
    longer
}

/// Split dependencies so that no two ranges of one package stand side by side: the dependencies
/// are grouped by the name of the package and then by their range, and every way to take one
/// range of each package is a fork. A package with a single range forks nothing.
pub fn split_into_forks(dependencies: &Vec<Dependency>) -> (forks: Vec<Vec<Dependency>>)
    requires
        all_named(dependency_list(dependencies@)),
    ensures
        dependency_lists(forks@) == forks_of(dependency_list(dependencies@)),
{
    let ghost list = dependency_list(dependencies@);
    let names = distinct_names(dependencies);
    let ghost all_names = names_of(list);
    let mut forks: Vec<Vec<Dependency>> = Vec::new();
    forks.push(Vec::new());
    proof {
        assert(dependency_list(forks@[0]@) =~= Seq::empty());
        assert(dependency_lists(forks@) =~= forks_over(list, all_names.take(0)));
    }
    for i in 0..names.len()
        invariant
            list == dependency_list(dependencies@),
            all_named(list),
            all_names == name_list(names@),
            dependency_lists(forks@) == forks_over(list, all_names.take(i as int)),
    {
        let name = &names[i];
        assert(all_names[i as int] == name@);
        assert(all_names.take(i + 1).drop_last() =~= all_names.take(i as int));
        let ranges = distinct_ranges(dependencies, name);
        let ghost keys = range_keys(ranges@);
        let ghost start = dependency_lists(forks@);
        let mut grown: Vec<Vec<Dependency>> = Vec::new();
        assert(dependency_lists(grown@) =~= branch(start, list, name@, keys.take(0)));
        for j in 0..ranges.len()
            invariant
                list == dependency_list(dependencies@),
                all_named(list),
                start == dependency_lists(forks@),
                keys == range_keys(ranges@),
                dependency_lists(grown@) == branch(start, list, name@, keys.take(j as int)),
        {
            assert(keys[j as int] == ranges@[j as int].key());
            assert(keys.take(j + 1).drop_last() =~= keys.take(j as int));
            let group = select_members(dependencies, name, &ranges[j]);
            let ghost more = dependency_list(group@);
            let ghost before = dependency_lists(grown@);
            assert(dependency_lists(grown@) =~= before + extend_all(start, more).take(0));
            for k in 0..forks.len()
                invariant
                    start == dependency_lists(forks@),
                    more == dependency_list(group@),
                    dependency_lists(grown@) == before + extend_all(start, more).take(k as int),
            {
                let ghost now = dependency_lists(grown@);
                let longer = extended(&forks[k], &group);
                assert(start[k as int] == dependency_list(forks@[k as int]@));
                let ghost item = dependency_list(longer@);
                assert(item == extend_all(start, more)[k as int]);
                grown.push(longer);
                assert(dependency_lists(grown@) =~= now.push(item));
                assert(dependency_lists(grown@) =~= before + extend_all(start, more).take(k + 1));
            }
            assert(extend_all(start, more).take(forks@.len() as int) =~= extend_all(start, more));
        }
        assert(keys.take(keys.len() as int) =~= keys);
        forks = grown;
    }
    assert(all_names.take(all_names.len() as int) =~= all_names);
    forks
}

/// A choice of one range for each of the packages.
pub open spec fn valid_choice(
    dependencies: Seq<DependencyView>,
    names: Seq<Seq<char>>,
    choice: Seq<Seq<(EndKey, EndKey)>>,
) -> bool {
    &&& choice.len() == names.len()
    &&& forall|i: int|
        0 <= i < names.len() ==> ranges_of(dependencies, names[i]).contains(#[trigger] choice[i])
}

/// The dependencies on each package in the range that was chosen for it.
pub open spec fn chosen(
    dependencies: Seq<DependencyView>,
    names: Seq<Seq<char>>,
    choice: Seq<Seq<(EndKey, EndKey)>>,
) -> Seq<DependencyView>
    decreases names.len(),
{
    if names.len() == 0 {
        Seq::empty()
    } else {
        chosen(dependencies, names.drop_last(), choice.drop_last()) + members(
            dependencies,
            names.last(),
            choice.last(),
        )
    }
}

/// A branch holds exactly the forks extended by one of the groups.
#[verifier::spinoff_prover]
#[verifier::rlimit(40)]
proof fn lemma_branch(
    forks: Seq<Seq<DependencyView>>,
    dependencies: Seq<DependencyView>,
    name: Seq<char>,
    ranges: Seq<Seq<(EndKey, EndKey)>>,
    fork: Seq<DependencyView>,
)
    ensures
        branch(forks, dependencies, name, ranges).contains(fork) <==> exists|i: int, r: int|
            0 <= i < forks.len() && 0 <= r < ranges.len() && fork == #[trigger] forks[i] + members(
                dependencies,
                name,
                #[trigger] ranges[r],
            ),
    decreases ranges.len(),
{
    let all = branch(forks, dependencies, name, ranges);
    if ranges.len() > 0 {
        let shorter = ranges.drop_last();
        let first = branch(forks, dependencies, name, shorter);
        let last = extend_all(forks, members(dependencies, name, ranges.last()));
        lemma_branch(forks, dependencies, name, shorter, fork);
        if all.contains(fork) {
            let k = choose|k: int| 0 <= k < all.len() && all[k] == fork;
            if k < first.len() {
                assert(first[k] == fork);
                let (i, r) = choose|i: int, r: int|
                    0 <= i < forks.len() && 0 <= r < shorter.len() && fork == #[trigger] forks[i]
                        + members(dependencies, name, #[trigger] shorter[r]);
                assert(ranges[r] == shorter[r]);
                assert(fork == forks[i] + members(dependencies, name, ranges[r]));
            } else {
                let i = k - first.len();
                assert(last[i] == fork);
                assert(fork == forks[i] + members(
                    dependencies,
                    name,
                    ranges[ranges.len() - 1],
                ));
            }
        }
        if exists|i: int, r: int|
            0 <= i < forks.len() && 0 <= r < ranges.len() && fork == #[trigger] forks[i] + members(
                dependencies,
                name,
                #[trigger] ranges[r],
            ) {
            let (i, r) = choose|i: int, r: int|
                0 <= i < forks.len() && 0 <= r < ranges.len() && fork == #[trigger] forks[i]
                    + members(dependencies, name, #[trigger] ranges[r]);
            if r < ranges.len() - 1 {
                assert(shorter[r] == ranges[r]);
                assert(fork == forks[i] + members(dependencies, name, shorter[r]));
                assert(first.contains(fork));
                let k = choose|k: int| 0 <= k < first.len() && first[k] == fork;
                assert(all[k] == fork);
            } else {
                assert(last[i] == fork);
                assert(all[first.len() + i] == fork);
            }
        }
    }
}

/// The forks over some packages are the choices of ranges for them.
proof fn lemma_forks_over(
    dependencies: Seq<DependencyView>,
    names: Seq<Seq<char>>,
    fork: Seq<DependencyView>,
)
    ensures
        forks_over(dependencies, names).contains(fork) <==> exists|choice: Seq<
            Seq<(EndKey, EndKey)>,
        >|
            valid_choice(dependencies, names, choice) && fork == #[trigger] chosen(
                dependencies,
                names,
                choice,
            ),
    decreases names.len(),
{
    let forks = forks_over(dependencies, names);
    if names.len() == 0 {
        let empty = Seq::<Seq<(EndKey, EndKey)>>::empty();
        assert(forks[0] == Seq::<DependencyView>::empty());
        assert(valid_choice(dependencies, names, empty));
        assert(chosen(dependencies, names, empty) == Seq::<DependencyView>::empty());
    } else {
        let shorter = names.drop_last();
        let start = forks_over(dependencies, shorter);
        let ranges = ranges_of(dependencies, names.last());
        lemma_branch(start, dependencies, names.last(), ranges, fork);
        if forks.contains(fork) {
            let (i, r) = choose|i: int, r: int|
                0 <= i < start.len() && 0 <= r < ranges.len() && fork == #[trigger] start[i]
                    + members(dependencies, names.last(), #[trigger] ranges[r]);
            lemma_forks_over(dependencies, shorter, start[i]);
            assert(start.contains(start[i]));
            let before = choose|choice: Seq<Seq<(EndKey, EndKey)>>|
                valid_choice(dependencies, shorter, choice) && start[i] == #[trigger] chosen(
                    dependencies,
                    shorter,
                    choice,
                );
            let choice = before.push(ranges[r]);
            assert(choice.drop_last() =~= before);
            assert forall|k: int| 0 <= k < names.len() implies ranges_of(
                dependencies,
                names[k],
            ).contains(#[trigger] choice[k]) by {
                if k < shorter.len() {
                    assert(shorter[k] == names[k]);
                    assert(choice[k] == before[k]);
                }
            }
            assert(fork == chosen(dependencies, names, choice));
        }
        if exists|choice: Seq<Seq<(EndKey, EndKey)>>|
            valid_choice(dependencies, names, choice) && fork == #[trigger] chosen(
                dependencies,
                names,
                choice,
            ) {
            let choice = choose|choice: Seq<Seq<(EndKey, EndKey)>>|
                valid_choice(dependencies, names, choice) && fork == #[trigger] chosen(
                    dependencies,
                    names,
                    choice,
                );
            let before = choice.drop_last();
            let prefix = chosen(dependencies, shorter, before);
            assert forall|k: int| 0 <= k < shorter.len() implies ranges_of(
                dependencies,
                shorter[k],
            ).contains(#[trigger] before[k]) by {
                assert(choice[k] == before[k]);
            }
            lemma_forks_over(dependencies, shorter, prefix);
            assert(start.contains(prefix));
            let i = choose|i: int| 0 <= i < start.len() && start[i] == prefix;
            assert(choice[names.len() - 1] == choice.last());
            let r = choose|r: int| 0 <= r < ranges.len() && ranges[r] == choice.last();
            assert(fork == start[i] + members(dependencies, names.last(), ranges[r]));
        }
    }
}

/// The forks are exactly the ways to choose one range for each package: every fork comes from a
/// choice, and every choice gives a fork.
pub proof fn law_forks_are_choices(dependencies: Seq<DependencyView>, fork: Seq<DependencyView>)
    ensures
        forks_of(dependencies).contains(fork) <==> exists|choice: Seq<Seq<(EndKey, EndKey)>>|
            valid_choice(dependencies, names_of(dependencies), choice) && fork
                == #[trigger] chosen(dependencies, names_of(dependencies), choice),
{
    lemma_forks_over(dependencies, names_of(dependencies), fork);
}

/// The members of a group are the dependencies with its name and range.
proof fn lemma_members(
    dependencies: Seq<DependencyView>,
    name: Seq<char>,
    range: Seq<(EndKey, EndKey)>,
    dependency: DependencyView,
)
    ensures
        members(dependencies, name, range).contains(dependency) <==> dependencies.contains(
            dependency,
        ) && dependency.name() == name && dependency.range_key() == range,
    decreases dependencies.len(),
{
    if dependencies.len() > 0 {
        let before = dependencies.drop_last();
        let last = dependencies.last();
        let shorter = members(before, name, range);
        let all = members(dependencies, name, range);
        lemma_members(before, name, range, dependency);
        if all.contains(dependency) {
            let i = choose|i: int| 0 <= i < all.len() && all[i] == dependency;
            if i < shorter.len() {
                assert(shorter[i] == dependency);
                let j = choose|j: int| 0 <= j < before.len() && before[j] == dependency;
                assert(dependencies[j] == dependency);
            } else {
                assert(dependencies[dependencies.len() - 1] == dependency);
            }
        }
        if dependencies.contains(dependency) && dependency.name() == name && dependency.range_key()
            == range {
            let j = choose|j: int| 0 <= j < dependencies.len() && dependencies[j] == dependency;
            if j < before.len() {
                assert(before[j] == dependency);
                let i = choose|i: int| 0 <= i < shorter.len() && shorter[i] == dependency;
                assert(all[i] == dependency);
            } else {
                assert(all[all.len() - 1] == dependency);
            }
        }
    }
}

/// What a choice takes are the dependencies whose range was chosen for their package.
proof fn lemma_chosen(
    dependencies: Seq<DependencyView>,
    names: Seq<Seq<char>>,
    choice: Seq<Seq<(EndKey, EndKey)>>,
    dependency: DependencyView,
)
    requires
        choice.len() == names.len(),
    ensures
        chosen(dependencies, names, choice).contains(dependency) <==> dependencies.contains(
            dependency,
        ) && exists|i: int|
            0 <= i < names.len() && #[trigger] names[i] == dependency.name() && choice[i]
                == dependency.range_key(),
    decreases names.len(),
{
    if names.len() > 0 {
        let shorter = names.drop_last();
        let before = choice.drop_last();
        let first = chosen(dependencies, shorter, before);
        let last = members(dependencies, names.last(), choice.last());
        let all = chosen(dependencies, names, choice);
        lemma_chosen(dependencies, shorter, before, dependency);
        lemma_members(dependencies, names.last(), choice.last(), dependency);
        if all.contains(dependency) {
            let k = choose|k: int| 0 <= k < all.len() && all[k] == dependency;
            if k < first.len() {
                assert(first[k] == dependency);
                let i = choose|i: int|
                    0 <= i < shorter.len() && #[trigger] shorter[i] == dependency.name()
                        && before[i] == dependency.range_key();
                assert(names[i] == dependency.name() && choice[i] == dependency.range_key());
            } else {
                assert(last[k - first.len()] == dependency);
                assert(names[names.len() - 1] == dependency.name());
            }
        }
        if dependencies.contains(dependency) && exists|i: int|
            0 <= i < names.len() && #[trigger] names[i] == dependency.name() && choice[i]
                == dependency.range_key() {
            let i = choose|i: int|
                0 <= i < names.len() && #[trigger] names[i] == dependency.name() && choice[i]
                    == dependency.range_key();
            if i < shorter.len() {
                assert(shorter[i] == dependency.name() && before[i] == dependency.range_key());
                let k = choose|k: int| 0 <= k < first.len() && first[k] == dependency;
                assert(all[k] == dependency);
            } else {
                let k = choose|k: int| 0 <= k < last.len() && last[k] == dependency;
                assert(all[first.len() + k] == dependency);
            }
        }
    }
}

/// No name is listed twice.
proof fn lemma_names_of(dependencies: Seq<DependencyView>)
    ensures
        names_of(dependencies).no_duplicates(),
        forall|i: int|
            0 <= i < dependencies.len() ==> names_of(dependencies).contains(
                (#[trigger] dependencies[i]).name(),
            ),
    decreases dependencies.len(),
{
    if dependencies.len() > 0 {
        let before = dependencies.drop_last();
        let shorter = names_of(before);
        let all = names_of(dependencies);
        lemma_names_of(before);
        assert forall|i: int| 0 <= i < dependencies.len() implies all.contains(
            (#[trigger] dependencies[i]).name(),
        ) by {
            if i < before.len() {
                assert(before[i] == dependencies[i]);
                assert(shorter.contains(before[i].name()));
                let k = choose|k: int| 0 <= k < shorter.len() && shorter[k] == before[i].name();
                assert(all[k] == before[i].name());
            } else if !shorter.contains(dependencies.last().name()) {
                assert(all[all.len() - 1] == dependencies[i].name());
            }
        }
    }
}

/// The range of a dependency is one of those of its package.
proof fn lemma_ranges_of(dependencies: Seq<DependencyView>, dependency: DependencyView)
    requires
        dependencies.contains(dependency),
    ensures
        ranges_of(dependencies, dependency.name()).contains(dependency.range_key()),
    decreases dependencies.len(),
{
    let before = dependencies.drop_last();
    let shorter = ranges_of(before, dependency.name());
    let all = ranges_of(dependencies, dependency.name());
    let j = choose|j: int| 0 <= j < dependencies.len() && dependencies[j] == dependency;
    if j < before.len() {
        assert(before[j] == dependency);
        lemma_ranges_of(before, dependency);
        let k = choose|k: int| 0 <= k < shorter.len() && shorter[k] == dependency.range_key();
        assert(all[k] == dependency.range_key());
    } else if !shorter.contains(dependency.range_key()) {
        assert(all[all.len() - 1] == dependency.range_key());
    }
}

/// Within a fork, all dependencies on a package agree on its range.
pub proof fn law_fork_has_one_range_per_package(
    dependencies: Seq<DependencyView>,
    fork: Seq<DependencyView>,
    i: int,
    j: int,
)
    requires
        forks_of(dependencies).contains(fork),
        0 <= i < fork.len(),
        0 <= j < fork.len(),
        fork[i].name() == fork[j].name(),
    ensures
        fork[i].range_key() == fork[j].range_key(),
{
    let names = names_of(dependencies);
    lemma_forks_over(dependencies, names, fork);
    lemma_names_of(dependencies);
    let choice = choose|choice: Seq<Seq<(EndKey, EndKey)>>|
        valid_choice(dependencies, names, choice) && fork == #[trigger] chosen(
            dependencies,
            names,
            choice,
        );
    lemma_chosen(dependencies, names, choice, fork[i]);
    lemma_chosen(dependencies, names, choice, fork[j]);
    assert(fork.contains(fork[i]) && fork.contains(fork[j]));
}

/// Every dependency is in some fork.
pub proof fn law_every_dependency_is_in_a_fork(
    dependencies: Seq<DependencyView>,
    dependency: DependencyView,
)
    requires
        dependencies.contains(dependency),
    ensures
        exists|fork: Seq<DependencyView>| #[trigger]
            forks_of(dependencies).contains(fork) && fork.contains(dependency),
{
    let names = names_of(dependencies);
    lemma_names_of(dependencies);
    let choice = Seq::new(
        names.len(),
        |k: int|
            if names[k] == dependency.name() {
                dependency.range_key()
            } else {
                ranges_of(dependencies, names[k])[0]
            },
    );
    assert forall|k: int| 0 <= k < names.len() implies ranges_of(dependencies, names[k]).contains(
        #[trigger] choice[k],
    ) by {
        if names[k] == dependency.name() {
            lemma_ranges_of(dependencies, dependency);
        } else {
            lemma_name_has_range(dependencies, names[k]);
            assert(ranges_of(dependencies, names[k])[0] == choice[k]);
        }
    }
    let fork = chosen(dependencies, names, choice);
    lemma_forks_over(dependencies, names, fork);
    lemma_chosen(dependencies, names, choice, dependency);
    let j = choose|j: int| 0 <= j < dependencies.len() && dependencies[j] == dependency;
    assert(names.contains(dependencies[j].name()));
    let k = choose|k: int| 0 <= k < names.len() && names[k] == dependency.name();
    assert(names[k] == dependency.name() && choice[k] == dependency.range_key());
    assert(forks_of(dependencies).contains(fork));
}

/// A package that is depended on is depended on in some range.
proof fn lemma_name_has_range(dependencies: Seq<DependencyView>, name: Seq<char>)
    requires
        names_of(dependencies).contains(name),
    ensures
        ranges_of(dependencies, name).len() > 0,
    decreases dependencies.len(),
{
    let before = dependencies.drop_last();
    if names_of(before).contains(name) {
        lemma_name_has_range(before, name);
    } else {
        assert(dependencies.last().name() == name);
    }
}

/// Whether all dependencies on a package agree on its range.
pub open spec fn agree_on_ranges(dependencies: Seq<DependencyView>) -> bool {
    forall|i: int, j: int|
        0 <= i < dependencies.len() && 0 <= j < dependencies.len() && (
        #[trigger] dependencies[i]).name() == (#[trigger] dependencies[j]).name()
            ==> dependencies[i].range_key() == dependencies[j].range_key()
}

/// A package whose dependencies agree on its range has at most that one.
proof fn lemma_single_range(dependencies: Seq<DependencyView>, name: Seq<char>)
    requires
        agree_on_ranges(dependencies),
    ensures
        ranges_of(dependencies, name).len() <= 1,
        forall|i: int|
            0 <= i < dependencies.len() && (#[trigger] dependencies[i]).name() == name ==> ranges_of(
                dependencies,
                name,
            ).contains(dependencies[i].range_key()),
    decreases dependencies.len(),
{
    assert forall|i: int| 0 <= i < dependencies.len() && (#[trigger] dependencies[i]).name()
        == name implies ranges_of(dependencies, name).contains(dependencies[i].range_key()) by {
        assert(dependencies.contains(dependencies[i]));
        lemma_ranges_of(dependencies, dependencies[i]);
    }
    if dependencies.len() > 0 {
        let before = dependencies.drop_last();
        assert(agree_on_ranges(before)) by {
            assert forall|i: int, j: int|
                0 <= i < before.len() && 0 <= j < before.len() && (#[trigger] before[i]).name() == (
                #[trigger] before[j]).name() implies before[i].range_key()
                == before[j].range_key() by {
                assert(before[i] == dependencies[i] && before[j] == dependencies[j]);
            }
        }
        lemma_single_range(before, name);
        let ranges = ranges_of(before, name);
        let last = dependencies.last();
        if last.name() == name && ranges.len() == 1 {
            lemma_range_has_dependency(before, name);
            let i = choose|i: int|
                0 <= i < before.len() && (#[trigger] before[i]).name() == name
                    && before[i].range_key() == ranges[0];
            assert(before[i] == dependencies[i]);
            assert(last == dependencies[dependencies.len() - 1]);
            assert(last.range_key() == ranges[0]);
            assert(ranges.contains(last.range_key()));
        }
    }
}

/// The first range of a package is that of one of its dependencies.
proof fn lemma_range_has_dependency(dependencies: Seq<DependencyView>, name: Seq<char>)
    requires
        ranges_of(dependencies, name).len() > 0,
    ensures
        exists|i: int|
            0 <= i < dependencies.len() && (#[trigger] dependencies[i]).name() == name
                && dependencies[i].range_key() == ranges_of(dependencies, name)[0],
    decreases dependencies.len(),
{
    let before = dependencies.drop_last();
    if ranges_of(before, name).len() > 0 {
        lemma_range_has_dependency(before, name);
        let i = choose|i: int|
            0 <= i < before.len() && (#[trigger] before[i]).name() == name && before[i].range_key()
                == ranges_of(before, name)[0];
        assert(dependencies[i] == before[i]);
    } else {
        assert(dependencies[dependencies.len() - 1].name() == name);
    }
}

/// Dependencies that agree on the range of each package do not fork.
pub proof fn law_agreeing_dependencies_do_not_fork(dependencies: Seq<DependencyView>)
    requires
        agree_on_ranges(dependencies),
    ensures
        forks_of(dependencies).len() == 1,
{
    lemma_single_fork(dependencies, names_of(dependencies));
}

/// Packages with one range each do not fork.
proof fn lemma_single_fork(dependencies: Seq<DependencyView>, names: Seq<Seq<char>>)
    requires
        agree_on_ranges(dependencies),
        forall|i: int| 0 <= i < names.len() ==> names_of(dependencies).contains(#[trigger] names[i]),
    ensures
        forks_over(dependencies, names).len() == 1,
    decreases names.len(),
{
    if names.len() > 0 {
        let shorter = names.drop_last();
        assert forall|i: int| 0 <= i < shorter.len() implies names_of(dependencies).contains(
            #[trigger] shorter[i],
        ) by {
            assert(shorter[i] == names[i]);
        }
        lemma_single_fork(dependencies, shorter);
        assert(names_of(dependencies).contains(names[names.len() - 1]));
        lemma_single_range(dependencies, names.last());
        lemma_name_has_range(dependencies, names.last());
        let ranges = ranges_of(dependencies, names.last());
        let start = forks_over(dependencies, shorter);
        assert(branch(start, dependencies, names.last(), ranges.drop_last()).len() == 0);
    }
}

/// Every dependency of a fork is one of those that were split.
pub proof fn law_forks_add_no_dependency(
    dependencies: Seq<DependencyView>,
    fork: Seq<DependencyView>,
    dependency: DependencyView,
)
    requires
        forks_of(dependencies).contains(fork),
        fork.contains(dependency),
    ensures
        dependencies.contains(dependency),
{
    let names = names_of(dependencies);
    lemma_forks_over(dependencies, names, fork);
    let choice = choose|choice: Seq<Seq<(EndKey, EndKey)>>|
        valid_choice(dependencies, names, choice) && fork == #[trigger] chosen(
            dependencies,
            names,
            choice,
        );
    lemma_chosen(dependencies, names, choice, dependency);
}

/// A range of a package is that of one of its dependencies.
proof fn lemma_range_is_depended_on(
    dependencies: Seq<DependencyView>,
    name: Seq<char>,
    range: Seq<(EndKey, EndKey)>,
)
    requires
        ranges_of(dependencies, name).contains(range),
    ensures
        exists|i: int|
            0 <= i < dependencies.len() && (#[trigger] dependencies[i]).name() == name
                && dependencies[i].range_key() == range,
    decreases dependencies.len(),
{
    let before = dependencies.drop_last();
    if ranges_of(before, name).contains(range) {
        lemma_range_is_depended_on(before, name, range);
        let i = choose|i: int|
            0 <= i < before.len() && (#[trigger] before[i]).name() == name && before[i].range_key()
                == range;
        assert(dependencies[i] == before[i]);
    } else {
        let ranges = ranges_of(before, name);
        let k = choose|k: int|
            0 <= k < ranges_of(dependencies, name).len() && ranges_of(dependencies, name)[k]
                == range;
        if k < ranges.len() {
            assert(ranges[k] == range);
        }
        assert(dependencies[dependencies.len() - 1].name() == name);
    }
}

/// Every fork has each of the packages that are depended on.
pub proof fn law_every_fork_has_every_package(
    dependencies: Seq<DependencyView>,
    fork: Seq<DependencyView>,
    dependency: DependencyView,
)
    requires
        forks_of(dependencies).contains(fork),
        dependencies.contains(dependency),
    ensures
        exists|i: int| 0 <= i < fork.len() && (#[trigger] fork[i]).name() == dependency.name(),
{
    let names = names_of(dependencies);
    lemma_forks_over(dependencies, names, fork);
    lemma_names_of(dependencies);
    let choice = choose|choice: Seq<Seq<(EndKey, EndKey)>>|
        valid_choice(dependencies, names, choice) && fork == #[trigger] chosen(
            dependencies,
            names,
            choice,
        );
    let j = choose|j: int| 0 <= j < dependencies.len() && dependencies[j] == dependency;
    assert(names.contains(dependencies[j].name()));
    let k = choose|k: int| 0 <= k < names.len() && names[k] == dependency.name();
    assert(ranges_of(dependencies, names[k]).contains(choice[k]));
    lemma_range_is_depended_on(dependencies, names[k], choice[k]);
    let i = choose|i: int|
        0 <= i < dependencies.len() && (#[trigger] dependencies[i]).name() == names[k]
            && dependencies[i].range_key() == choice[k];
    assert(dependencies.contains(dependencies[i]));
    lemma_chosen(dependencies, names, choice, dependencies[i]);
    assert(fork.contains(dependencies[i]));
}

/// A fork takes all dependencies on a package in the range that it takes one in.
pub proof fn law_a_fork_takes_all_of_a_range(
    dependencies: Seq<DependencyView>,
    fork: Seq<DependencyView>,
    one: DependencyView,
    other: DependencyView,
)
    requires
        forks_of(dependencies).contains(fork),
        fork.contains(one),
        dependencies.contains(other),
        one.name() == other.name(),
        one.range_key() == other.range_key(),
    ensures
        fork.contains(other),
{
    let names = names_of(dependencies);
    lemma_forks_over(dependencies, names, fork);
    let choice = choose|choice: Seq<Seq<(EndKey, EndKey)>>|
        valid_choice(dependencies, names, choice) && fork == #[trigger] chosen(
            dependencies,
            names,
            choice,
        );
    lemma_chosen(dependencies, names, choice, one);
    lemma_chosen(dependencies, names, choice, other);
}

/// The dependencies of a group are those on the package in the range, all of them, in the order in
/// which they come.
pub proof fn law_groups_keep_their_order(
    dependencies: Seq<DependencyView>,
    name: Seq<char>,
    range: Seq<(EndKey, EndKey)>,
)
    ensures
        members(dependencies, name, range) == dependencies.filter(
            |dependency: DependencyView|
                dependency.name() == name && dependency.range_key() == range,
        ),
    decreases dependencies.len(),
{
    reveal(Seq::filter);
    if dependencies.len() == 0 {
        assert(dependencies =~= Seq::empty());
    } else {
        law_groups_keep_their_order(dependencies.drop_last(), name, range);
    }
}

/// A package that comes last is named last, unless a dependency on it came before. Its range comes
/// last among the ranges of the package, unless the range came before, and does not count among
/// those of any other package.
pub proof fn law_names_and_ranges_come_in_order(
    dependencies: Seq<DependencyView>,
    last: DependencyView,
    name: Seq<char>,
)
    ensures
        names_of(Seq::empty()).len() == 0,
        ranges_of(Seq::empty(), name).len() == 0,
        (exists|i: int|
            0 <= i < dependencies.len() && (#[trigger] dependencies[i]).name() == last.name())
            ==> names_of(dependencies.push(last)) == names_of(dependencies),
        (forall|i: int|
            0 <= i < dependencies.len() ==> (#[trigger] dependencies[i]).name() != last.name())
            ==> names_of(dependencies.push(last)) == names_of(dependencies).push(last.name()),
        last.name() != name ==> ranges_of(dependencies.push(last), name) == ranges_of(
            dependencies,
            name,
        ),
        (exists|i: int|
            0 <= i < dependencies.len() && (#[trigger] dependencies[i]).name() == last.name()
                && dependencies[i].range_key() == last.range_key()) ==> ranges_of(
            dependencies.push(last),
            last.name(),
        ) == ranges_of(dependencies, last.name()),
        (forall|i: int|
            0 <= i < dependencies.len() ==> !((#[trigger] dependencies[i]).name() == last.name()
                && dependencies[i].range_key() == last.range_key())) ==> ranges_of(
            dependencies.push(last),
            last.name(),
        ) == ranges_of(dependencies, last.name()).push(last.range_key()),
{
    assert(dependencies.push(last).drop_last() =~= dependencies);
    lemma_names_of(dependencies);
    if names_of(dependencies).contains(last.name()) {
        lemma_name_has_range(dependencies, last.name());
        lemma_range_has_dependency(dependencies, last.name());
    }
    if ranges_of(dependencies, last.name()).contains(last.range_key()) {
        lemma_range_is_depended_on(dependencies, last.name(), last.range_key());
    }
    if exists|i: int|
        0 <= i < dependencies.len() && (#[trigger] dependencies[i]).name() == last.name()
            && dependencies[i].range_key() == last.range_key() {
        let i = choose|i: int|
            0 <= i < dependencies.len() && (#[trigger] dependencies[i]).name() == last.name()
                && dependencies[i].range_key() == last.range_key();
        assert(dependencies.contains(dependencies[i]));
        lemma_ranges_of(dependencies, dependencies[i]);
    }
}

/// A branch holds the forks once for each range, those of the first range first.
proof fn lemma_branch_order(
    forks: Seq<Seq<DependencyView>>,
    dependencies: Seq<DependencyView>,
    name: Seq<char>,
    ranges: Seq<Seq<(EndKey, EndKey)>>,
)
    ensures
        branch(forks, dependencies, name, ranges).len() == forks.len() * ranges.len(),
        forall|i: int, r: int|
            0 <= i < forks.len() && 0 <= r < ranges.len() ==> #[trigger] branch(
                forks,
                dependencies,
                name,
                ranges,
            )[forks.len() * r + i] == forks[i] + members(dependencies, name, ranges[r]),
    decreases ranges.len(),
{
    let all = branch(forks, dependencies, name, ranges);
    let m = forks.len() as int;
    let n = ranges.len() as int;
    if n == 0 {
        assert(m * n == 0) by (nonlinear_arith)
            requires
                n == 0,
        ;
    } else {
        let shorter = ranges.drop_last();
        let first = branch(forks, dependencies, name, shorter);
        lemma_branch_order(forks, dependencies, name, shorter);
        assert(m * n == m * (n - 1) + m) by (nonlinear_arith);
        assert forall|i: int, r: int| 0 <= i < m && 0 <= r < n implies #[trigger] all[m * r + i]
            == forks[i] + members(dependencies, name, ranges[r]) by {
            if r < n - 1 {
                assert(m * r + i < m * (n - 1)) by (nonlinear_arith)
                    requires
                        0 <= i < m,
                        r < n - 1,
                ;
                assert(0 <= m * r) by (nonlinear_arith)
                    requires
                        0 <= m,
                        0 <= r,
                ;
                assert(all[m * r + i] == first[m * r + i]);
                assert(shorter[r] == ranges[r]);
                assert(first[forks.len() * r + i] == forks[i] + members(
                    dependencies,
                    name,
                    shorter[r],
                ));
            } else {
                assert(m * r + i == first.len() + i);
            }
        }
    }
}

/// Every fork of the packages before comes once for each range of the next package, and those of
/// the first range come first. So there are as many forks as there are ways to choose a range for
/// each package.
pub proof fn law_forks_come_in_order(
    dependencies: Seq<DependencyView>,
    names: Seq<Seq<char>>,
    name: Seq<char>,
    i: int,
    r: int,
)
    requires
        0 <= i < forks_over(dependencies, names).len(),
        0 <= r < ranges_of(dependencies, name).len(),
    ensures
        ({
            let before = forks_over(dependencies, names);
            let forks = forks_over(dependencies, names.push(name));
            let ranges = ranges_of(dependencies, name);
            &&& forks.len() == before.len() * ranges.len()
            &&& forks[before.len() * r + i] == before[i] + members(dependencies, name, ranges[r])
        }),
        forks_over(dependencies, Seq::empty()) == seq![Seq::<DependencyView>::empty()],
        forks_of(dependencies) == forks_over(dependencies, names_of(dependencies)),
{
    assert(names.push(name).drop_last() =~= names);
    lemma_branch_order(
        forks_over(dependencies, names),
        dependencies,
        name,
        ranges_of(dependencies, name),
    );
}

} // verus!
