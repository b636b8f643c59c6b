use uv_resolver::availability::{
    IncompatibleDist, IncompatibleSource, IncompatibleWheel, IncompletePackage, ResolverVersion,
    UnavailablePackage, UnavailableVersion,
};
use uv_resolver::collections::{Keyed, KeyedMap, KeyedSet};
use uv_resolver::dependencies::{
    check_availability, get_dependencies, incomplete_from_metadata, root_failure, visit_package,
    with_unmarked, Expanded, Finding,
};
use uv_resolver::dist::{Dist, InstalledDist, ResolvedDist, SourceDist, SourceKind};
use uv_resolver::error::ResolveError;
use uv_resolver::forks::Dependency;
use uv_resolver::outcome::{fetched, resolve, solved, Failure, Outcome};
use uv_resolver::package::{PackageTable, PubGrubPackage, PubGrubPython};
use uv_resolver::python::{
    are_writable, requires_python_contains, specifiers_range, PythonRequirement,
};
use uv_resolver::range::Range;
use uv_resolver::registry::Registry;
use uv_resolver::request::Request;
use uv_resolver::resolution::{FilePins, Resolution};
use uv_resolver::selection::{
    choose_from_metadata, choose_supported, choose_version, split_python_reason,
    unavailable_from_versions, Choice, Metadata, MetadataResponse, VersionsResponse,
};
use uv_resolver::specifier::{Operator, VersionSpecifier};
use uv_resolver::state::{prefetch_requests, SolveState};
use uv_resolver::step::Effect;
use uv_resolver::version::{Edge, Version};

fn release(numbers: &[u64]) -> Version {
    Version {
        epoch: 0,
        release: numbers.to_vec(),
        pre: None,
        post: None,
        dev: None,
        local: Vec::new(),
        edge: Edge::Within,
    }
}

fn specifier(operator: Operator, numbers: &[u64]) -> VersionSpecifier {
    VersionSpecifier { operator, version: release(numbers) }
}

fn python() -> PythonRequirement {
    PythonRequirement { installed: release(&[3, 11]), target: release(&[3, 8]) }
}

#[test]
fn the_root_has_the_lowest_version() {
    match choose_version(&PubGrubPackage::Root(None), &Range::full(), &python()) {
        Choice::Chosen(Some(ResolverVersion::Available(version))) => {
            assert_eq!(version.release, vec![0]);
            assert_eq!(version.dev, Some(0));
        }
        _ => panic!("the root has a version"),
    }
}

#[test]
fn python_has_the_version_of_the_interpreter_or_the_target() {
    let choose = |python_package: PubGrubPython, range: &Range| {
        match choose_version(&PubGrubPackage::Python(python_package), range, &python()) {
            Choice::Chosen(Some(ResolverVersion::Available(version))) => Some(version.release),
            Choice::Chosen(None) => None,
            _ => panic!("nothing more is needed"),
        }
    };
    let newer = Range::higher_than(&release(&[3, 9]));
    assert_eq!(choose(PubGrubPython::Installed, &newer), Some(vec![3, 11]));
    assert_eq!(choose(PubGrubPython::Target, &newer), None);
    assert_eq!(choose(PubGrubPython::Target, &Range::full()), Some(vec![3, 8]));
}

#[test]
fn other_packages_need_metadata_or_versions() {
    let package = |url: Option<&str>| PubGrubPackage::Package {
        name: "a".to_string(),
        extra: None,
        marker: None,
        url: url.map(|url| url.to_string()),
    };
    match choose_version(&package(Some("u")), &Range::full(), &python()) {
        Choice::Metadata { name, url } => assert_eq!((name.as_str(), url.as_str()), ("a", "u")),
        _ => panic!("the metadata is needed"),
    }
    match choose_version(&package(None), &Range::full(), &python()) {
        Choice::Versions { name } => assert_eq!(name, "a"),
        _ => panic!("the versions are needed"),
    }
}

#[test]
fn missing_metadata_makes_a_package_unavailable() {
    let reason = |response: MetadataResponse<Metadata>| {
        let (version, reason) = choose_from_metadata(response, &Range::full(), &release(&[3, 8]));
        assert!(version.is_none());
        format!("{:?}", reason.unwrap())
    };
    let text = || "x".to_string();
    assert_eq!(reason(MetadataResponse::Offline), "Offline");
    assert_eq!(reason(MetadataResponse::InvalidMetadata(text())), "InvalidMetadata(\"x\")");
    assert_eq!(reason(MetadataResponse::InconsistentMetadata(text())), "InvalidMetadata(\"x\")");
    assert_eq!(reason(MetadataResponse::InvalidStructure(text())), "InvalidStructure(\"x\")");
}

#[test]
fn missing_versions_make_a_package_unavailable() {
    let reason = |response: VersionsResponse<u8>| unavailable_from_versions(&response);
    assert!(reason(VersionsResponse::Found(1)).is_none());
    assert!(matches!(reason(VersionsResponse::NoIndex), Some(UnavailablePackage::NoIndex)));
    assert!(matches!(reason(VersionsResponse::Offline), Some(UnavailablePackage::Offline)));
    assert!(matches!(reason(VersionsResponse::NotFound), Some(UnavailablePackage::NotFound)));
}

#[test]
fn missing_metadata_makes_a_version_incomplete() {
    let reason = |response: MetadataResponse<u8>| incomplete_from_metadata(response);
    let text = || "x".to_string();
    assert!(reason(MetadataResponse::Found(1)).is_none());
    assert!(matches!(
        reason(MetadataResponse::Offline),
        Some((IncompletePackage::Offline, UnavailableVersion::Offline))
    ));
    assert!(matches!(
        reason(MetadataResponse::InvalidMetadata(text())),
        Some((IncompletePackage::InvalidMetadata(_), UnavailableVersion::InvalidMetadata))
    ));
    assert!(matches!(
        reason(MetadataResponse::InconsistentMetadata(text())),
        Some((IncompletePackage::InconsistentMetadata(_), UnavailableVersion::InconsistentMetadata))
    ));
    assert!(matches!(
        reason(MetadataResponse::InvalidStructure(text())),
        Some((IncompletePackage::InvalidStructure(_), UnavailableVersion::InvalidStructure))
    ));
}

#[test]
fn python_reasons_are_told_apart() {
    let source = UnavailableVersion::IncompatibleDist(IncompatibleDist::Source(
        IncompatibleSource::RequiresPython(vec![specifier(Operator::Equal, &[3])]),
    ));
    assert_eq!(split_python_reason(source).unwrap().len(), 1);
    let wheel = UnavailableVersion::IncompatibleDist(IncompatibleDist::Wheel(
        IncompatibleWheel::RequiresPython(vec![]),
    ));
    assert_eq!(split_python_reason(wheel).unwrap().len(), 0);
    let other = UnavailableVersion::IncompatibleDist(IncompatibleDist::Wheel(
        IncompatibleWheel::Other("abi".to_string()),
    ));
    assert!(matches!(
        split_python_reason(other),
        Err(UnavailableVersion::IncompatibleDist(IncompatibleDist::Wheel(_)))
    ));
}

#[test]
fn every_specifier_has_to_hold() {
    let both = vec![
        specifier(Operator::GreaterThanEqual, &[3, 8]),
        specifier(Operator::LessThan, &[3, 12]),
    ];
    assert!(are_writable(&both));
    assert!(requires_python_contains(&both, &release(&[3, 8])));
    assert!(requires_python_contains(&both, &release(&[3, 11, 4])));
    assert!(!requires_python_contains(&both, &release(&[3, 12])));
    assert!(!requires_python_contains(&both, &release(&[3, 7])));
    assert!(requires_python_contains(&Vec::new(), &release(&[2])));
    let range = match specifiers_range(&both) {
        Ok(range) => range,
        Err(_) => panic!("both have a range"),
    };
    assert!(range.contains(&release(&[3, 8])));
    assert!(!range.contains(&release(&[3, 12])));
    assert!(!range.contains(&release(&[3, 7])));
}

#[test]
fn the_first_specifier_without_a_range_is_reported() {
    let specifiers = vec![
        specifier(Operator::GreaterThanEqual, &[3, 8]),
        specifier(Operator::TildeEqual, &[3]),
        specifier(Operator::TildeEqual, &[4]),
    ];
    assert!(!are_writable(&specifiers));
    match specifiers_range(&specifiers) {
        Ok(_) => panic!("`~=3` has no range"),
        Err(error) => assert_eq!(error.specifier.version.release, vec![3]),
    }
}

#[test]
fn specifiers_that_cannot_be_written_are_told_apart() {
    let mut local = specifier(Operator::GreaterThan, &[1]);
    local.version.local = vec![uv_resolver::version::LocalSegment::Number(1)];
    assert!(!are_writable(&vec![local]));
    let mut local = specifier(Operator::Equal, &[1]);
    local.version.local = vec![uv_resolver::version::LocalSegment::Number(1)];
    assert!(are_writable(&vec![local]));
    assert!(are_writable(&vec![specifier(Operator::EqualStar, &[u64::MAX])]));
    assert!(!specifier(Operator::EqualStar, &[u64::MAX]).is_convertible());
    assert!(!are_writable(&vec![specifier(Operator::Equal, &[])]));
}

#[test]
fn dependencies_start_from_the_package() {
    let version = release(&[2]);
    assert!(matches!(
        get_dependencies(&PubGrubPackage::Root(None), &version, true),
        Finding::RootRequirements
    ));
    let python = PubGrubPackage::Python(PubGrubPython::Target);
    match get_dependencies(&python, &version, true) {
        Finding::Known(dependencies) => assert_eq!(dependencies.len(), 0),
        _ => panic!("Python has no dependencies"),
    }
    let package =
        PubGrubPackage::Package { name: "a".to_string(), extra: None, marker: None, url: None };
    assert!(matches!(get_dependencies(&package, &version, true), Finding::Availability));
    assert!(matches!(get_dependencies(&package, &version, false), Finding::DirectMetadata));
    let extra = PubGrubPackage::Extra {
        name: "a".to_string(),
        extra: "e".to_string(),
        marker: Some("m".to_string()),
        url: Some("u".to_string()),
    };
    match get_dependencies(&extra, &version, true) {
        Finding::Known(dependencies) => {
            let shown: Vec<String> =
                dependencies.iter().map(|entry| format!("{:?}", entry.package)).collect();
            assert_eq!(
                shown,
                vec![
                    "Package { name: \"a\", extra: None, marker: Some(\"m\"), url: Some(\"u\") }",
                    "Package { name: \"a\", extra: Some(\"e\"), marker: Some(\"m\"), \
                     url: Some(\"u\") }",
                ]
            );
            assert!(dependencies.iter().all(|entry| entry.range.text() == "==2"));
        }
        _ => panic!("an extra depends on its package"),
    }
}

#[test]
fn marked_packages_depend_on_the_unmarked_one() {
    let package = |marker: Option<&str>| PubGrubPackage::Package {
        name: "a".to_string(),
        extra: Some("e".to_string()),
        marker: marker.map(|marker| marker.to_string()),
        url: None,
    };
    let all = with_unmarked(Vec::new(), &package(Some("m")), &release(&[2]));
    assert_eq!(all.len(), 1);
    assert!(all[0].package.same(&package(None)));
    assert_eq!(all[0].range.text(), "==2");
    assert_eq!(with_unmarked(Vec::new(), &package(None), &release(&[2])).len(), 0);
}

#[test]
fn availability_is_checked() {
    let name = "a".to_string();
    assert!(check_availability(&name, true, true).is_ok());
    assert!(check_availability(&name, false, false).is_ok());
    match check_availability(&name, true, false) {
        Err(ResolveError::Failure(text)) => assert_eq!(text, "The package is unavailable: a"),
        _ => panic!("the package is unavailable"),
    }
    match root_failure(&"Bad requirement".to_string()) {
        UnavailableVersion::ResolverError(text) => assert_eq!(text, "bad requirement"),
        _ => panic!("the requirement is bad"),
    }
}

#[test]
fn tables_number_packages_once() {
    let package = |name: &str| PubGrubPackage::Package {
        name: name.to_string(),
        extra: None,
        marker: None,
        url: None,
    };
    let mut table = PackageTable::new(PubGrubPackage::Root(None));
    assert_eq!(table.intern(&package("a")), 1);
    assert_eq!(table.intern(&package("b")), 2);
    assert_eq!(table.intern(&package("a")), 1);
    assert_eq!(table.len(), 3);
    assert!(table.get(2).same(&package("b")));
    assert!(!table.duplicate().get(0).same(&package("a")));
}

#[test]
fn sets_hold_equal_items_once() {
    let mut set: KeyedSet<Version> = KeyedSet::new();
    assert!(set.insert(release(&[1])));
    assert!(!set.insert(release(&[1, 0])));
    assert!(set.insert(release(&[2])));
    assert!(set.contains(&release(&[2, 0])));
    assert!(!set.contains(&release(&[3])));
    let mut other: KeyedSet<Version> = KeyedSet::new();
    other.insert(release(&[2]));
    other.insert(release(&[3]));
    let copy = set.duplicate();
    set.extend(other);
    assert_eq!(set.items().len(), 3);
    assert_eq!(copy.items().len(), 2);
}

#[test]
fn maps_keep_the_last_value() {
    let mut map: KeyedMap<String, u8> = KeyedMap::new();
    map.insert("a".to_string(), 1);
    map.insert("b".to_string(), 2);
    map.insert("a".to_string(), 3);
    assert_eq!(map.get(&"a".to_string()), Some(&3));
    assert_eq!(map.get(&"b".to_string()), Some(&2));
    assert_eq!(map.get(&"c".to_string()), None);
    let mut other: KeyedMap<String, u8> = KeyedMap::new();
    other.insert("b".to_string(), 4);
    other.insert("c".to_string(), 5);
    map.extend(other);
    assert_eq!(map.get(&"a".to_string()), Some(&3));
    assert_eq!(map.get(&"b".to_string()), Some(&4));
    assert_eq!(map.get(&"c".to_string()), Some(&5));
}

fn installed(id: &str) -> ResolvedDist {
    ResolvedDist::Installed(InstalledDist { id: id.to_string(), text: id.to_string() })
}

fn from_source(id: &str) -> ResolvedDist {
    ResolvedDist::Installable(Dist::Source(SourceDist {
        kind: SourceKind::Registry,
        id: id.to_string(),
        text: id.to_string(),
    }))
}

fn pinned(pins: &FilePins, version: &[u64]) -> String {
    match pins.get(&"a".to_string(), &release(version)) {
        Some(ResolvedDist::Installed(dist)) => format!("installed {}", dist.id),
        Some(ResolvedDist::Installable(dist)) => format!("installable {}", dist.version_id()),
        None => "nothing".to_string(),
    }
}

#[test]
fn pins_are_found_by_name_and_version() {
    let name = "a".to_string();
    let mut pins = FilePins::new();
    pins.insert(&name, &release(&[1]), installed("x"));
    let copy = pins.duplicate();
    let mut later = FilePins::new();
    later.insert(&name, &release(&[1, 0]), from_source("y"));
    later.insert(&name, &release(&[2]), from_source("z"));
    pins.union(later);
    assert_eq!(pinned(&pins, &[1]), "installable y");
    assert_eq!(pinned(&pins, &[2]), "installable z");
    assert_eq!(pinned(&pins, &[3]), "nothing");
    assert_eq!(pinned(&copy, &[1]), "installed x");
    assert_eq!(pinned(&copy, &[2]), "nothing");
}

#[test]
fn resolutions_are_joined() {
    let package =
        || PubGrubPackage::Package { name: "a".to_string(), extra: None, marker: None, url: None };
    let with = |version: &[u64], dist: ResolvedDist| {
        let mut resolution = Resolution::new();
        resolution.packages.insert((package(), release(version)));
        resolution.pins.insert(&"a".to_string(), &release(version), dist);
        resolution
    };
    let mut all = Resolution::new();
    all.union(with(&[1], installed("x")));
    all.union(with(&[2], installed("y")));
    all.union(with(&[1, 0], installed("z")));
    assert_eq!(all.packages.items().len(), 2);
    assert_eq!(pinned(&all.pins, &[1]), "installed z");
    assert_eq!(pinned(&all.pins, &[2]), "installed y");
}

#[test]
fn outcomes_follow_what_went_wrong() {
    assert!(matches!(
        resolve(solved(Some(Ok(Resolution::new()))), true),
        Outcome::Resolved { report: true, .. }
    ));
    assert!(matches!(
        resolve(Ok(Resolution::new()), false),
        Outcome::Resolved { report: false, .. }
    ));
    match solved(None) {
        Err(failure) => {
            assert_eq!(failure.visited.items().len(), 0);
            assert!(matches!(
                resolve(Err(failure), true),
                Outcome::Failed(ResolveError::ChannelClosed)
            ));
        }
        Ok(_) => panic!("the solver went away"),
    }
    assert!(fetched(Ok(())).is_ok());
    match fetched(Err(ResolveError::Unregistered)) {
        Err(Failure { error: ResolveError::Unregistered, visited }) => {
            assert_eq!(visited.items().len(), 0)
        }
        _ => panic!("the fetcher failed"),
    }
}

#[test]
fn metadata_decides_by_whether_it_supports_the_target() {
    let metadata = || Metadata {
        version: release(&[2]),
        requires_python: Some(vec![specifier(Operator::GreaterThanEqual, &[3, 12])]),
    };
    let below = Range::strictly_lower_than(&release(&[2]));
    assert!(choose_supported(metadata(), &below, true).is_none());
    assert!(choose_supported(metadata(), &below, false).is_none());
    match choose_supported(metadata(), &Range::full(), true) {
        Some(ResolverVersion::Available(version)) => assert_eq!(version.release, vec![2]),
        _ => panic!("the version is available"),
    }
    match choose_supported(metadata(), &Range::full(), false) {
        Some(ResolverVersion::Unavailable(version, reason)) => {
            assert_eq!(version.release, vec![2]);
            assert!(split_python_reason(reason).is_ok());
        }
        _ => panic!("the version is not available"),
    }
}

fn entry(package: PubGrubPackage) -> Expanded {
    Expanded {
        dependency: Dependency { package, range: Range::full() },
        allowed: true,
        dist: None,
    }
}

fn named(name: &str, extra: Option<&str>, url: Option<&str>) -> PubGrubPackage {
    PubGrubPackage::Package {
        name: name.to_string(),
        extra: extra.map(str::to_string),
        marker: None,
        url: url.map(str::to_string),
    }
}

#[test]
fn only_packages_are_visited() {
    let extra = PubGrubPackage::Extra {
        name: "a".to_string(),
        extra: "e".to_string(),
        marker: None,
        url: None,
    };
    for package in [
        PubGrubPackage::Root(None),
        PubGrubPackage::Python(PubGrubPython::Installed),
        PubGrubPackage::Python(PubGrubPython::Target),
        extra,
    ] {
        assert!(matches!(visit_package(&entry(package)), Ok(None)));
    }
    match visit_package(&entry(named("a", None, None))) {
        Ok(Some(Effect::FetchVersions(name))) => assert_eq!(name, "a"),
        _ => panic!("the versions of the package are fetched"),
    }
    let mut refused = entry(named("a", None, Some("file:///a")));
    refused.allowed = false;
    assert!(matches!(visit_package(&refused), Err(ResolveError::UnhashedPackage(_))));
}

#[test]
fn requests_are_sent_once() {
    let mut registry = Registry::new();
    for round in 0..3 {
        let effect = visit_package(&entry(named("a", None, None))).ok().unwrap().unwrap();
        match registry.submit(&effect) {
            Some(Request::Package(name)) => {
                assert_eq!(round, 0);
                assert_eq!(name, "a");
            }
            None => assert!(round > 0),
            _ => panic!("the versions of the package are fetched"),
        }
    }
    let metadata = |id: &str| Effect::FetchMetadata {
        id: id.to_string(),
        request: Request::Installed(InstalledDist { id: id.to_string(), text: id.to_string() }),
    };
    assert!(matches!(registry.submit(&metadata("a")), Some(Request::Installed(_))));
    assert!(registry.submit(&metadata("a")).is_none());
    assert!(!registry.register_distribution(&"a".to_string()));
    assert!(registry.register_distribution(&"b".to_string()));
    assert!(registry.submit(&metadata("b")).is_none());
    assert!(!registry.register_package(&"a".to_string()));
    assert!(registry.register_package(&"b".to_string()));
    let prefetch = Effect::Send(Request::Prefetch("a".to_string(), Range::full()));
    assert!(matches!(registry.submit(&prefetch), Some(Request::Prefetch(..))));
    assert!(matches!(registry.submit(&prefetch), Some(Request::Prefetch(..))));
    assert!(registry.submit(&Effect::Tried(PubGrubPackage::Root(None))).is_none());
}

#[test]
fn packages_of_a_registry_are_prefetched() {
    let mut table = PackageTable::new(PubGrubPackage::Root(None));
    let plain: u64 = table.intern(&named("a", None, None));
    let extra: u64 = table.intern(&named("a", Some("e"), None));
    let url: u64 = table.intern(&named("b", None, Some("file:///b")));
    let below = Range::strictly_lower_than(&release(&[2]));
    let packages =
        vec![(0, Range::full()), (extra, Range::full()), (plain, below), (url, Range::full())];
    let requests = prefetch_requests(&packages, &table);
    assert_eq!(requests.len(), 1);
    assert_eq!(requests[0].0, "a");
    assert_eq!(requests[0].1.text(), "<2");
    // Nothing is known of any package at the start.
    let table = PackageTable::new(PubGrubPackage::Root(None));
    assert_eq!(SolveState::new().pre_visit(&table).len(), 0);
}

#[test]
fn copies_are_written_the_same() {
    let mut set: KeyedSet<(String, Version)> = KeyedSet::new();
    set.insert(("a".to_string(), release(&[1, 0])));
    assert_eq!(set.duplicate().items()[0].1.release, vec![1, 0]);
}
