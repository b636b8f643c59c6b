use uv_resolver::availability::{
    IncompatibleDist, IncompatibleSource, UnavailablePackage, UnavailableReason,
    UnavailableVersion,
};
use uv_resolver::dependencies::Expanded;
use uv_resolver::dist::{
    BuiltDist, BuiltKind, Dist, InstalledDist, PrioritizedDist, ResolvedDist, ResolvedDistRef,
    SourceDist, SourceKind,
};
use uv_resolver::error::ResolveError;
use uv_resolver::forks::Dependency;
use uv_resolver::outcome::{resolve, solved, Failure, Outcome};
use uv_resolver::package::PubGrubPackage;
use uv_resolver::python::PythonRequirement;
use uv_resolver::range::Range;
use uv_resolver::request::Request;
use uv_resolver::resolution::Resolution;
use uv_resolver::resolver::{DependencyMode, Resolver};
use uv_resolver::selection::{
    Candidate, CandidateDist, Metadata, MetadataResponse, VersionsResponse,
};
use uv_resolver::solver::Ranks;
use uv_resolver::specifier::{Operator, VersionSpecifier};
use uv_resolver::step::{Effect, Query, VersionOrUrl};
use uv_resolver::transition::Answer;
use uv_resolver::version::{Edge, Version};

fn release(numbers: &[u64]) -> Version {
    Version {
        epoch: 0,
        release: numbers.to_vec(),
        pre: None,
        post: None,
        dev: None,
        local: Vec::new(),
        edge: Edge::Within,
    }
}

fn at_least(number: u64) -> Range {
    Range::higher_than(&release(&[number]))
}

fn below(number: u64) -> Range {
    Range::strictly_lower_than(&release(&[number]))
}

fn package(name: &str) -> PubGrubPackage {
    PubGrubPackage::Package { name: name.to_string(), extra: None, marker: None, url: None }
}

fn marked(name: &str, marker: &str) -> PubGrubPackage {
    PubGrubPackage::Package {
        name: name.to_string(),
        extra: None,
        marker: Some(marker.to_string()),
        url: None,
    }
}

fn at_url(name: &str, url: &str) -> PubGrubPackage {
    PubGrubPackage::Package {
        name: name.to_string(),
        extra: None,
        marker: None,
        url: Some(url.to_string()),
    }
}

fn extra(name: &str, extra: &str) -> PubGrubPackage {
    PubGrubPackage::Extra {
        name: name.to_string(),
        extra: extra.to_string(),
        marker: None,
        url: None,
    }
}

fn wheel(name: &str, version: u64) -> BuiltDist {
    BuiltDist {
        kind: BuiltKind::Registry,
        id: format!("{name}-{version}"),
        text: format!("{name}=={version}"),
    }
}

/// A registry, with the versions of each package and their dependencies.
struct World {
    versions: Vec<(&'static str, u64, Vec<(PubGrubPackage, Range)>)>,
    root: Result<Vec<(PubGrubPackage, Range)>, &'static str>,
    /// Versions that need a newer Python.
    newer_python: Vec<(&'static str, u64)>,
    /// Versions that have no metadata.
    incomplete: Vec<(&'static str, u64)>,
    /// Versions that have no distribution.
    incompatible: Vec<(&'static str, u64)>,
    unhashed: Vec<&'static str>,
    /// The metadata of a package with a URL.
    url_metadata: fn() -> Option<MetadataResponse<Metadata>>,
    /// Packages nobody asks to fetch.
    unregistered: Vec<&'static str>,
    unavailable: Vec<(String, UnavailablePackage)>,
    log: Vec<String>,
}

fn world(root: Vec<(PubGrubPackage, Range)>) -> World {
    World {
        versions: Vec::new(),
        root: Ok(root),
        newer_python: Vec::new(),
        incomplete: Vec::new(),
        incompatible: Vec::new(),
        unhashed: Vec::new(),
        url_metadata: || None,
        unregistered: Vec::new(),
        unavailable: Vec::new(),
        log: Vec::new(),
    }
}

fn clone_all(list: &[(PubGrubPackage, Range)]) -> Vec<(PubGrubPackage, Range)> {
    list.iter().map(|(package, range)| (package.clone(), range.clone())).collect()
}

impl World {
    fn expand(&self, list: &[(PubGrubPackage, Range)]) -> Vec<Expanded> {
        clone_all(list)
            .into_iter()
            .map(|(package, range)| {
                let (name, url) = match &package {
                    PubGrubPackage::Package { name, url, .. } => (name.clone(), url.clone()),
                    PubGrubPackage::Extra { name, url, .. } => (name.clone(), url.clone()),
                    _ => panic!("only named packages are depended on"),
                };
                let dist = url.map(|url| {
                    if url.starts_with("bad") {
                        Err(format!("{url} is no distribution"))
                    } else {
                        Ok(Dist::Source(SourceDist {
                            kind: SourceKind::DirectUrl,
                            id: url.clone(),
                            text: url,
                        }))
                    }
                });
                let allowed = !self.unhashed.contains(&name.as_str());
                Expanded { dependency: Dependency { package, range }, allowed, dist }
            })
            .collect()
    }

    fn select(&self, name: &str, range: &Range) -> Option<Candidate> {
        let mut found: Vec<u64> = self
            .versions
            .iter()
            .filter(|(own, number, _)| *own == name && range.contains(&release(&[*number])))
            .map(|(_, number, _)| *number)
            .collect();
        found.sort();
        let number = found.pop()?;
        let at = |list: &Vec<(&'static str, u64)>| {
            list.iter().any(|(own, other)| *own == name && *other == number)
        };
        let dist = if at(&self.newer_python) {
            CandidateDist::Incompatible(IncompatibleDist::Source(
                IncompatibleSource::RequiresPython(vec![VersionSpecifier {
                    operator: Operator::GreaterThanEqual,
                    version: release(&[3, 12]),
                }]),
            ))
        } else if at(&self.incompatible) {
            CandidateDist::Incompatible(IncompatibleDist::Unavailable)
        } else {
            CandidateDist::Compatible {
                id: format!("{name}-{number}"),
                for_installation: ResolvedDist::Installable(Dist::Built(wheel(name, number))),
                for_resolution: ResolvedDistRef::InstallableRegistryBuiltDist {
                    filename: "file".to_string(),
                    prioritized: PrioritizedDist {
                        source_dist: None,
                        best_wheel: Some("file".to_string()),
                        built_dist: Some(wheel(name, number)),
                    },
                },
            }
        };
        Some(Candidate { version: release(&[number]), dist })
    }

    fn perform(&mut self, effect: Effect) {
        let line = match effect {
            Effect::Send(request) => format!("send {}", request.display()),
            Effect::FetchVersions(name) => format!("fetch versions {name}"),
            Effect::FetchMetadata { id, request } => format!("fetch {id}: {}", request.display()),
            Effect::Tried(package) => format!("tried {}", show(&package)),
            Effect::MarkUnavailable(name, reason) => {
                let line = format!("unavailable {name}: {reason:?}");
                self.unavailable.push((name, reason));
                line
            }
            Effect::MarkIncomplete(name, version, reason) => {
                format!("incomplete {name} {:?}: {reason:?}", version.release)
            }
            Effect::PrefetchBatches { package, version, range } => {
                format!("batches {} {:?} {}", show(&package), version.release, range.text())
            }
            Effect::Progress(name, VersionOrUrl::Version(version)) => {
                format!("progress {name} {:?}", version.release)
            }
            Effect::Progress(name, VersionOrUrl::Url(url)) => format!("progress {name} @ {url}"),
        };
        self.log.push(line);
    }

    fn dependencies(&self, name: &str, version: &Version) -> Vec<Expanded> {
        let (_, _, list) = self
            .versions
            .iter()
            .find(|(own, number, _)| *own == name && version.release == vec![*number])
            .unwrap();
        self.expand(list)
    }

    fn answer(&mut self, resolver: &Resolver, query: Query) -> Option<Answer> {
        Some(match query {
            Query::Proceed => Answer::Proceed,
            Query::Rank => {
                let mut ranks = vec![None; resolver.package_count()];
                for (i, (package, _)) in resolver.priorities().unwrap().iter().enumerate() {
                    let rank = &mut ranks[*package as usize];
                    if rank.is_none() {
                        *rank = Some((1, i));
                    }
                }
                ranks[0] = Some((2, 0));
                Answer::Ranks(Ranks { ranks })
            }
            Query::Metadata { .. } => Answer::Metadata((self.url_metadata)()),
            Query::Versions { name } => {
                if self.unregistered.contains(&name.as_str()) {
                    Answer::Versions(None)
                } else if self.versions.iter().any(|(own, _, _)| *own == name) {
                    Answer::Versions(Some(VersionsResponse::Found(())))
                } else {
                    Answer::Versions(Some(VersionsResponse::NotFound))
                }
            }
            Query::Select { name, range } => Answer::Candidate(self.select(&name, &range)),
            Query::Unavailable { name } => {
                let position = self.unavailable.iter().position(|(own, _)| *own == name);
                Answer::Reason(position.map(|position| self.unavailable.remove(position).1))
            }
            Query::RootRequirements => Answer::RootRequirements(match &self.root {
                Ok(list) => Ok(self.expand(list)),
                Err(text) => Err(text.to_string()),
            }),
            Query::DirectMetadata { name, .. } => {
                Answer::DirectMetadata(!self.unregistered.contains(&name.as_str()))
            }
            Query::Availability { name } => Answer::Availability {
                unavailable: name == "gone",
                installed: false,
            },
            Query::PackageMetadata { name, version, .. } => {
                let incomplete = self
                    .incomplete
                    .iter()
                    .any(|(own, number)| *own == name && version.release == vec![*number]);
                Answer::PackageMetadata(if incomplete {
                    Some(MetadataResponse::InvalidMetadata("no name".to_string()))
                } else if name == "nobody" {
                    None
                } else {
                    Some(MetadataResponse::Found(()))
                })
            }
            Query::PackageRequirements { name, version, url, .. } => {
                Answer::PackageRequirements(if name == "odd" {
                    Err("odd requirements".to_string())
                } else if url.is_some() {
                    Ok(Vec::new())
                } else {
                    Ok(self.dependencies(&name, &version))
                })
            }
            Query::Done => return None,
        })
    }

    fn run(&mut self, mut resolver: Resolver) -> (Resolver, Option<ResolveError>) {
        let mut answer = Answer::Proceed;
        for _ in 0..1000 {
            assert!(resolver.accepts(&answer));
            let step = resolver.advance(answer);
            for effect in step.effects {
                self.perform(effect);
            }
            match step.outcome {
                Err(error) => return (resolver, Some(error)),
                Ok(query) => match self.answer(&resolver, query) {
                    Some(next) => answer = next,
                    None => return (resolver, None),
                },
            }
        }
        panic!("the resolution does not end")
    }

    fn resolve(&mut self) -> Resolution {
        let (resolver, error) = self.run(resolver());
        assert!(error.is_none());
        resolver.into_resolution()
    }

    fn fail(&mut self) -> ResolveError {
        self.run(resolver()).1.unwrap()
    }
}

fn python() -> PythonRequirement {
    PythonRequirement { installed: release(&[3, 11]), target: release(&[3, 11]) }
}

fn resolver() -> Resolver {
    Resolver::new(None, DependencyMode::Transitive, false, python())
}

fn universal() -> Resolver {
    Resolver::new(None, DependencyMode::Transitive, true, python())
}

fn show(package: &PubGrubPackage) -> String {
    match package {
        PubGrubPackage::Root(_) => "root".to_string(),
        PubGrubPackage::Python(python) => format!("python {python:?}"),
        PubGrubPackage::Extra { name, extra, .. } => format!("{name}[{extra}]+"),
        PubGrubPackage::Package { name, extra, marker, url } => {
            let mut text = name.clone();
            if let Some(extra) = extra {
                text = format!("{text}[{extra}]");
            }
            if let Some(url) = url {
                text = format!("{text} @ {url}");
            }
            if let Some(marker) = marker {
                text = format!("{text} ; {marker}");
            }
            text
        }
    }
}

fn packages(resolution: &Resolution) -> Vec<String> {
    let mut list: Vec<String> = resolution
        .packages
        .items()
        .iter()
        .filter(|(package, _)| !matches!(package, PubGrubPackage::Root(_)))
        .map(|(package, version)| format!("{} {:?}", show(package), version.release))
        .collect();
    list.sort();
    list
}

fn edges(resolution: &Resolution) -> Vec<String> {
    let mut list: Vec<String> = resolution
        .dependencies
        .items()
        .iter()
        .map(|(names, versions)| {
            format!(
                "{}{:?} -> {}{:?}",
                names.from,
                versions.from_version.release,
                names.to,
                versions.to_version.release
            )
        })
        .collect();
    list.sort();
    list
}

#[test]
fn requirements_are_resolved_with_their_dependencies() {
    let mut world = world(vec![(package("a"), Range::full())]);
    world.versions = vec![
        ("a", 1, vec![]),
        ("a", 2, vec![(package("b"), below(3))]),
        ("b", 2, vec![]),
        ("b", 3, vec![]),
    ];
    let resolution = world.resolve();
    assert_eq!(packages(&resolution), vec!["a [2]", "b [2]"]);
    assert_eq!(edges(&resolution), vec!["a[2] -> b[2]"]);
    match resolution.pins.get(&"b".to_string(), &release(&[2, 0])) {
        Some(ResolvedDist::Installable(Dist::Built(dist))) => assert_eq!(dist.id, "b-2"),
        _ => panic!("`b` is pinned"),
    }
    assert!(resolution.pins.get(&"b".to_string(), &release(&[3])).is_none());
    assert_eq!(
        world.log,
        vec![
            "tried root",
            "batches root [0] ==0a0.dev0",
            "fetch versions a",
            "send Prefetch a *",
            "tried a",
            "fetch a-2: Metadata a==2",
            "batches a [2] *",
            "fetch versions b",
            "send Prefetch b <3",
            "tried b",
            "fetch b-2: Metadata b==2",
            "batches b [2] <3",
        ]
    );
}

#[test]
fn conflicts_lead_to_older_versions() {
    let mut world = world(vec![(package("a"), Range::full()), (package("b"), below(2))]);
    world.versions = vec![
        ("a", 1, vec![(package("b"), Range::full())]),
        ("a", 2, vec![(package("b"), at_least(2))]),
        ("b", 1, vec![]),
        ("b", 2, vec![]),
    ];
    let resolution = world.resolve();
    assert_eq!(packages(&resolution), vec!["a [1]", "b [1]"]);
    assert_eq!(edges(&resolution), vec!["a[1] -> b[1]"]);
}

#[test]
fn there_may_be_no_solution() {
    let mut world = world(vec![(package("a"), Range::full()), (package("b"), below(2))]);
    world.versions = vec![("a", 2, vec![(package("b"), at_least(2))]), ("b", 1, vec![])];
    let (resolver, error) = world.run(resolver());
    assert!(matches!(error, Some(ResolveError::NoSolution(_))));
    assert!(!resolver.accepts(&Answer::Proceed));
}

#[test]
fn packages_that_are_not_found_are_unavailable() {
    let mut world = world(vec![(package("a"), Range::full())]);
    let (resolver, error) = world.run(resolver());
    assert!(matches!(error, Some(ResolveError::NoSolution(_))));
    assert!(world.log.contains(&"unavailable a: NotFound".to_string()));
    assert!(matches!(
        resolver.reason(0),
        Some(UnavailableReason::Package(UnavailablePackage::NotFound))
    ));
    assert!(resolver.reason(1).is_none());
    assert!(resolver.visited().contains(&"a".to_string()));
    assert!(!resolver.visited().contains(&"b".to_string()));
}

#[test]
fn requirements_that_cannot_be_expressed_rule_out_the_root() {
    let mut world = world(vec![]);
    world.root = Err("Conflicting URLs");
    let (resolver, error) = world.run(resolver());
    assert!(matches!(error, Some(ResolveError::NoSolution(_))));
    match resolver.reason(0) {
        Some(UnavailableReason::Version(UnavailableVersion::ResolverError(text))) => {
            assert_eq!(text, "conflicting URLs")
        }
        _ => panic!("the root cannot be used"),
    }
}

#[test]
fn direct_mode_ignores_dependencies_of_dependencies() {
    let mut world = world(vec![(package("a"), Range::full())]);
    world.versions = vec![("a", 1, vec![(package("b"), Range::full())]), ("b", 1, vec![])];
    let resolver = Resolver::new(None, DependencyMode::Direct, false, python());
    let (resolver, error) = world.run(resolver);
    assert!(error.is_none());
    assert_eq!(packages(&resolver.into_resolution()), vec!["a [1]"]);
    // Nothing is fetched ahead of time.
    assert!(!world.log.iter().any(|line| line.starts_with("send")));
}

#[test]
fn direct_mode_needs_registered_metadata() {
    let mut world = world(vec![(package("a"), Range::full())]);
    world.versions = vec![("a", 1, vec![])];
    let resolver = Resolver::new(None, DependencyMode::Direct, false, python());
    let mut resolver = resolver;
    let mut answer = Answer::Proceed;
    let error = loop {
        let step = resolver.advance(answer);
        match step.outcome {
            Err(error) => break error,
            Ok(Query::DirectMetadata { .. }) => answer = Answer::DirectMetadata(false),
            Ok(query) => answer = world.answer(&resolver, query).unwrap(),
        }
    };
    assert!(matches!(error, ResolveError::Unregistered));
}

#[test]
fn extras_depend_on_their_base_package() {
    let mut world = world(vec![(extra("a", "e"), Range::full())]);
    world.versions = vec![("a", 1, vec![]), ("a", 2, vec![])];
    let resolution = world.resolve();
    assert_eq!(packages(&resolution), vec!["a [2]", "a[e] [2]", "a[e]+ [2]"]);
    assert_eq!(edges(&resolution).len(), 0);
}

#[test]
fn edges_lead_to_extras() {
    let mut world = world(vec![(package("a"), Range::full())]);
    world.versions = vec![("a", 1, vec![(extra("b", "e"), Range::full())]), ("b", 1, vec![])];
    let resolution = world.resolve();
    assert_eq!(edges(&resolution), vec!["a[1] -> b[1]"]);
    let (_, versions) = &resolution.dependencies.items()[0];
    assert_eq!(versions.from_extra, None);
    assert_eq!(versions.to_extra, Some("e".to_string()));
}

#[test]
fn a_package_cannot_depend_on_itself() {
    let mut world = world(vec![(package("a"), Range::full())]);
    world.versions = vec![("a", 1, vec![(package("a"), Range::full())])];
    match world.fail() {
        ResolveError::SelfDependency { package, version } => {
            assert_eq!(show(&package), "a");
            assert_eq!(version.release, vec![1]);
        }
        _ => panic!("`a` depends on itself"),
    }
}

#[test]
fn packages_without_hashes_are_refused() {
    let mut world = world(vec![
        (package("a"), Range::full()),
        (package("b"), Range::full()),
        (package("c"), Range::full()),
    ]);
    world.unhashed = vec!["b"];
    match world.fail() {
        ResolveError::UnhashedPackage(name) => assert_eq!(name, "b"),
        _ => panic!("`b` has no hash"),
    }
    assert_eq!(world.log.last().unwrap(), "fetch versions a");
}

#[test]
fn a_version_for_newer_pythons_gives_way() {
    let mut world = world(vec![(package("a"), Range::full())]);
    world.versions = vec![("a", 1, vec![]), ("a", 2, vec![])];
    world.newer_python = vec![("a", 2)];
    let resolution = world.resolve();
    assert_eq!(packages(&resolution), vec!["a [1]"]);
}

#[test]
fn a_specifier_without_a_range_is_an_error() {
    let mut world = world(vec![(package("a"), Range::full())]);
    world.versions = vec![("a", 1, vec![])];
    let mut resolver = resolver();
    let mut answer = Answer::Proceed;
    let error = loop {
        let step = resolver.advance(answer);
        match step.outcome {
            Err(error) => break error,
            Ok(Query::Select { .. }) => {
                answer = Answer::Candidate(Some(Candidate {
                    version: release(&[1]),
                    dist: CandidateDist::Incompatible(IncompatibleDist::Source(
                        IncompatibleSource::RequiresPython(vec![VersionSpecifier {
                            operator: Operator::TildeEqual,
                            version: release(&[3]),
                        }]),
                    )),
                }))
            }
            Ok(query) => answer = world.answer(&resolver, query).unwrap(),
        }
    };
    match error {
        ResolveError::InvalidTildeEquals(error) => {
            assert_eq!(error.specifier.version.release, vec![3])
        }
        _ => panic!("`~=3` has no range"),
    }
}

#[test]
fn an_incompatible_version_gives_way() {
    let mut world = world(vec![(package("a"), Range::full())]);
    world.versions = vec![("a", 1, vec![]), ("a", 2, vec![])];
    world.incompatible = vec![("a", 2)];
    let (resolver, error) = world.run(resolver());
    assert!(error.is_none());
    assert!(matches!(
        resolver.reason(0),
        Some(UnavailableReason::Version(UnavailableVersion::IncompatibleDist(
            IncompatibleDist::Unavailable
        )))
    ));
    assert_eq!(packages(&resolver.into_resolution()), vec!["a [1]"]);
}

#[test]
fn a_version_without_metadata_gives_way() {
    let mut world = world(vec![(package("a"), Range::full())]);
    world.versions = vec![("a", 1, vec![]), ("a", 2, vec![])];
    world.incomplete = vec![("a", 2)];
    let (resolver, error) = world.run(resolver());
    assert!(error.is_none());
    assert!(world.log.contains(&"incomplete a [2]: InvalidMetadata(\"no name\")".to_string()));
    assert!(matches!(
        resolver.reason(0),
        Some(UnavailableReason::Version(UnavailableVersion::InvalidMetadata))
    ));
    assert_eq!(packages(&resolver.into_resolution()), vec!["a [1]"]);
}

#[test]
fn unregistered_packages_are_an_error() {
    let mut world = world(vec![(package("a"), Range::full())]);
    world.unregistered = vec!["a"];
    assert!(matches!(world.fail(), ResolveError::Unregistered));
    let mut world = self::world(vec![(package("nobody"), Range::full())]);
    world.versions = vec![("nobody", 1, vec![])];
    assert!(matches!(world.fail(), ResolveError::Unregistered));
    let mut world = self::world(vec![(at_url("a", "file:///a"), Range::full())]);
    assert!(matches!(world.fail(), ResolveError::Unregistered));
}

#[test]
fn unavailable_packages_have_no_dependencies() {
    let mut world = world(vec![(package("gone"), Range::full())]);
    world.versions = vec![("gone", 1, vec![])];
    match world.fail() {
        ResolveError::Failure(text) => assert_eq!(text, "The package is unavailable: gone"),
        _ => panic!("the package is unavailable"),
    }
}

#[test]
fn requirements_of_a_package_that_cannot_be_expressed_are_an_error() {
    let mut world = world(vec![(package("odd"), Range::full())]);
    world.versions = vec![("odd", 1, vec![])];
    match world.fail() {
        ResolveError::Requirements(text) => assert_eq!(text, "odd requirements"),
        _ => panic!("the requirements are odd"),
    }
}

fn found(version: u64, specifiers: Option<Vec<VersionSpecifier>>) -> MetadataResponse<Metadata> {
    MetadataResponse::Found(Metadata { version: release(&[version]), requires_python: specifiers })
}

#[test]
fn a_package_at_a_url_has_the_version_of_its_metadata() {
    let mut world = world(vec![(at_url("a", "file:///a"), Range::full())]);
    world.url_metadata = || Some(found(7, None));
    let resolution = world.resolve();
    assert_eq!(packages(&resolution), vec!["a @ file:///a [7]"]);
    assert!(world.log.contains(&"fetch file:///a: Metadata file:///a".to_string()));
}

#[test]
fn a_package_at_a_url_may_be_out_of_range() {
    let mut world = world(vec![(at_url("a", "file:///a"), below(7))]);
    world.url_metadata = || Some(found(7, None));
    assert!(matches!(world.fail(), ResolveError::NoSolution(_)));
}

#[test]
fn a_package_at_a_url_may_need_another_python() {
    let mut world = world(vec![(at_url("a", "file:///a"), Range::full())]);
    world.url_metadata = || {
        Some(found(
            7,
            Some(vec![VersionSpecifier {
                operator: Operator::LessThan,
                version: release(&[3, 11]),
            }]),
        ))
    };
    assert!(matches!(world.fail(), ResolveError::NoSolution(_)));
}

#[test]
fn a_package_at_a_url_may_suit_the_python() {
    let mut world = world(vec![(at_url("a", "file:///a"), Range::full())]);
    world.url_metadata = || {
        Some(found(
            7,
            Some(vec![VersionSpecifier {
                operator: Operator::GreaterThanEqual,
                version: release(&[3, 8]),
            }]),
        ))
    };
    assert_eq!(packages(&world.resolve()), vec!["a @ file:///a [7]"]);
}

#[test]
fn a_package_at_a_url_may_be_unavailable() {
    let mut world = world(vec![(at_url("a", "file:///a"), Range::full())]);
    world.url_metadata = || Some(MetadataResponse::Offline);
    assert!(matches!(world.fail(), ResolveError::NoSolution(_)));
    assert!(world.log.contains(&"unavailable a: Offline".to_string()));
}

#[test]
fn a_url_may_be_no_distribution() {
    let mut world = world(vec![(at_url("a", "bad"), Range::full())]);
    match world.fail() {
        ResolveError::Distribution(text) => assert_eq!(text, "bad is no distribution"),
        _ => panic!("the URL is bad"),
    }
}

#[test]
fn progress_is_reported_on_request() {
    let mut world = world(vec![
        (package("a"), Range::full()),
        (at_url("b", "file:///b"), Range::full()),
    ]);
    world.versions = vec![("a", 1, vec![])];
    world.url_metadata = || Some(found(7, None));
    world.run(resolver());
    assert!(!world.log.iter().any(|line| line.starts_with("progress")));
    world.log.clear();
    world.run(resolver().with_reporter());
    let reports: Vec<&String> =
        world.log.iter().filter(|line| line.starts_with("progress")).collect();
    assert_eq!(reports, vec!["progress a [1]", "progress b @ file:///b"]);
}

#[test]
fn every_environment_may_have_its_version() {
    let root = || vec![(marked("a", "new"), at_least(2)), (marked("a", "old"), below(2))];
    let mut world = world(root());
    world.versions = vec![("a", 1, vec![]), ("a", 2, vec![(package("b"), Range::full())])];
    world.versions.push(("b", 1, vec![]));
    let (resolver, error) = world.run(universal());
    assert!(error.is_none());
    let resolution = resolver.into_resolution();
    assert_eq!(
        packages(&resolution),
        vec!["a ; new [2]", "a ; old [1]", "a [1]", "a [2]", "b [1]"]
    );
    assert_eq!(edges(&resolution), vec!["a[2] -> b[1]"]);
    // For a single environment, the two ranges exclude each other.
    let mut world = self::world(root());
    world.versions = vec![("a", 1, vec![]), ("a", 2, vec![])];
    assert!(matches!(world.fail(), ResolveError::NoSolution(_)));
}

#[test]
fn dependencies_are_retrieved_once_per_version() {
    // The choice of `c` is taken back, while that of `b` stays as it was.
    let mut world = world(vec![
        (package("b"), Range::full()),
        (package("c"), Range::full()),
        (package("d"), Range::full()),
    ]);
    world.versions = vec![
        ("b", 1, vec![]),
        ("c", 1, vec![]),
        ("c", 2, vec![(package("d"), at_least(2))]),
        ("d", 1, vec![]),
    ];
    let (resolver, error) = world.run(resolver());
    assert!(error.is_none());
    assert_eq!(packages(&resolver.into_resolution()), vec!["b [1]", "c [1]", "d [1]"]);
}

#[test]
fn installed_packages_are_pinned() {
    let mut world = world(vec![(package("a"), Range::full())]);
    let mut resolver = resolver();
    let mut answer = Answer::Proceed;
    world.versions = vec![("a", 1, vec![])];
    let installed = || InstalledDist { id: "a-1".to_string(), text: "a==1".to_string() };
    loop {
        let step = resolver.advance(answer);
        for effect in step.effects {
            if let Effect::FetchMetadata { request, .. } = &effect {
                assert!(matches!(request, Request::Installed(_)));
            }
            world.perform(effect);
        }
        answer = match step.outcome {
            Ok(Query::Select { .. }) => Answer::Candidate(Some(Candidate {
                version: release(&[1]),
                dist: CandidateDist::Compatible {
                    id: "a-1".to_string(),
                    for_installation: ResolvedDist::Installed(installed()),
                    for_resolution: ResolvedDistRef::Installed(installed()),
                },
            })),
            Ok(query) => match world.answer(&resolver, query) {
                Some(answer) => answer,
                None => break,
            },
            Err(_) => panic!("the requirements can be resolved"),
        };
    }
    let resolution = resolver.into_resolution();
    assert!(matches!(
        resolution.pins.get(&"a".to_string(), &release(&[1])),
        Some(ResolvedDist::Installed(_))
    ));
}

#[test]
fn answers_have_to_fit_the_question() {
    let mut world = world(vec![(package("a"), below(2))]);
    world.versions = vec![("a", 1, vec![]), ("a", 2, vec![])];
    let mut resolver = resolver();
    assert!(!resolver.accepts(&Answer::DirectMetadata(true)));
    let mut answer = Answer::Proceed;
    loop {
        let step = resolver.advance(answer);
        match step.outcome {
            Ok(Query::Select { .. }) => break,
            Ok(query) => answer = world.answer(&resolver, query).unwrap(),
            Err(_) => panic!("the requirements can be resolved"),
        }
    }
    // A candidate has to be in the range.
    assert!(!resolver.accepts(&Answer::Candidate(world.select("a", &Range::full()))));
    assert!(resolver.accepts(&Answer::Candidate(world.select("a", &below(2)))));
    assert!(resolver.accepts(&Answer::Candidate(None)));
}

#[test]
fn the_first_package_is_the_root() {
    let resolver = Resolver::new(
        Some("project".to_string()),
        DependencyMode::Transitive,
        false,
        python(),
    );
    assert_eq!(resolver.package_count(), 1);
    match resolver.package(0) {
        PubGrubPackage::Root(Some(name)) => assert_eq!(name, "project"),
        _ => panic!("the root comes first"),
    }
    assert!(resolver.priorities().is_none());
}

#[test]
fn a_missing_solution_comes_with_the_visited_packages() {
    let mut world = world(vec![(package("a"), at_least(2))]);
    world.versions = vec![("a", 1, vec![])];
    let (resolver, error) = world.run(resolver());
    let failure = Failure { error: error.unwrap(), visited: resolver.visited().duplicate() };
    match resolve(solved(Some(Err(failure))), true) {
        Outcome::Unsolvable { visited, .. } => {
            assert_eq!(visited.items(), &vec!["a".to_string()]);
        }
        _ => panic!("there is no solution"),
    }
}

/// Every version that is resolved of the packages with the name.
fn versions_of(resolution: &Resolution, name: &str) -> Vec<Vec<u64>> {
    let mut versions: Vec<Vec<u64>> = resolution
        .packages
        .items()
        .iter()
        .filter(|(package, _)| match package {
            PubGrubPackage::Package { name: own, .. } => own == name,
            PubGrubPackage::Extra { name: own, .. } => own == name,
            _ => false,
        })
        .map(|(_, version)| version.release.clone())
        .collect();
    versions.dedup();
    versions
}

#[test]
fn marked_packages_follow_the_unmarked() {
    let mut world = world(vec![(marked("a", "m"), Range::full()), (package("a"), below(3))]);
    world.versions = vec![("a", 1, vec![]), ("a", 2, vec![]), ("a", 3, vec![])];
    let resolution = world.resolve();
    assert_eq!(packages(&resolution), vec!["a ; m [2]", "a [2]"]);
}

#[test]
fn a_name_has_one_version_with_extras_and_markers() {
    let extra = PubGrubPackage::Extra {
        name: "a".to_string(),
        extra: "e".to_string(),
        marker: Some("m".to_string()),
        url: None,
    };
    let mut world = world(vec![
        (extra, Range::full()),
        (package("b"), Range::full()),
        (self::extra("a", "f"), Range::full()),
    ]);
    world.versions = vec![
        ("a", 1, vec![]),
        ("a", 2, vec![]),
        ("a", 3, vec![]),
        ("b", 1, vec![(package("a"), below(2))]),
    ];
    let resolution = world.resolve();
    assert_eq!(versions_of(&resolution, "a"), vec![vec![1]]);
    assert_eq!(
        packages(&resolution),
        vec![
            "a ; m [1]",
            "a [1]",
            "a[e] ; m [1]",
            "a[e] [1]",
            "a[e]+ [1]",
            "a[f] [1]",
            "a[f]+ [1]",
            "b [1]",
        ]
    );
}

#[test]
fn every_requirement_is_resolved_in_its_range() {
    let mut world = world(vec![
        (package("a"), at_least(2)),
        (package("b"), below(4)),
        (extra("c", "e"), Range::full()),
    ]);
    world.versions = vec![
        ("a", 1, vec![]),
        ("a", 2, vec![(package("b"), below(3))]),
        ("b", 2, vec![]),
        ("b", 3, vec![]),
        ("b", 4, vec![]),
        ("c", 1, vec![(package("a"), Range::full())]),
    ];
    let resolution = world.resolve();
    for (required, range) in [
        (package("a"), at_least(2)),
        (package("b"), below(4)),
        (extra("c", "e"), Range::full()),
        // What `a` at its second version depends on.
        (package("b"), below(3)),
    ] {
        assert!(resolution
            .packages
            .items()
            .iter()
            .any(|(package, version)| show(package) == show(&required) && range.contains(version)));
    }
    // Every package of the registry is pinned.
    for (package, version) in resolution.packages.items() {
        if let PubGrubPackage::Package { name, url: None, .. } = package {
            assert!(resolution.pins.get(name, version).is_some());
        }
    }
}

#[test]
fn every_requirement_is_resolved_in_some_environment() {
    let mut world = world(vec![
        (marked("a", "new"), at_least(2)),
        (marked("a", "old"), below(2)),
        (package("b"), Range::full()),
    ]);
    world.versions = vec![("a", 1, vec![]), ("a", 2, vec![]), ("b", 1, vec![])];
    let (resolver, error) = world.run(universal());
    assert!(error.is_none());
    assert_eq!(
        packages(&resolver.into_resolution()),
        vec!["a ; new [2]", "a ; old [1]", "a [1]", "a [2]", "b [1]"]
    );
}

#[test]
fn versions_stay_as_they_are_written() {
    let mut world = world(vec![(package("a"), Range::full())]);
    world.versions = vec![("a", 1, vec![])];
    let mut resolver = resolver();
    let mut answer = Answer::Proceed;
    loop {
        let step = resolver.advance(answer);
        answer = match step.outcome {
            Ok(Query::Select { name, range }) => {
                let mut candidate = world.select(&name, &range).unwrap();
                candidate.version = release(&[1, 0, 0]);
                Answer::Candidate(Some(candidate))
            }
            Ok(Query::PackageRequirements { .. }) => Answer::PackageRequirements(Ok(Vec::new())),
            Ok(query) => match world.answer(&resolver, query) {
                Some(answer) => answer,
                None => break,
            },
            Err(_) => panic!("the requirements can be resolved"),
        };
    }
    assert_eq!(packages(&resolver.into_resolution()), vec!["a [1, 0, 0]"]);
}

#[test]
fn joined_resolutions_keep_what_came_first() {
    let mut one = Resolution::new();
    let mut other = Resolution::new();
    one.packages.insert((package("a"), release(&[1])));
    other.packages.insert((package("a"), release(&[1, 0])));
    other.packages.insert((package("b"), release(&[2, 0])));
    one.union(other);
    assert_eq!(packages(&one), vec!["a [1]", "b [2, 0]"]);
}

#[test]
fn answers_that_do_not_fit_change_nothing() {
    let mut resolver = resolver();
    assert!(resolver.try_advance(Answer::DirectMetadata(true)).is_none());
    assert_eq!(resolver.package_count(), 1);
    let step = resolver.try_advance(Answer::Proceed).unwrap();
    assert!(matches!(step.outcome, Ok(Query::Rank)));
}

/// A package that carries an extra itself.
fn with_extra(name: &str, extra: &str, marker: Option<&str>) -> PubGrubPackage {
    PubGrubPackage::Package {
        name: name.to_string(),
        extra: Some(extra.to_string()),
        marker: marker.map(str::to_string),
        url: None,
    }
}

#[test]
fn requirements_may_stand_for_packages_with_extras() {
    let mut world = world(vec![(with_extra("a", "e", Some("m")), Range::full())]);
    world.versions = vec![
        ("a", 1, vec![(with_extra("b", "f", None), below(2))]),
        ("b", 1, vec![]),
        ("b", 2, vec![]),
    ];
    let resolution = world.resolve();
    // The package with a marker depends on the same one without, extra included.
    assert_eq!(packages(&resolution), vec!["a[e] ; m [1]", "a[e] [1]", "b[f] [1]"]);
    // The extra of a package that is depended on is recorded.
    let (names, versions) = &resolution.dependencies.items()[0];
    assert_eq!((names.from.as_str(), names.to.as_str()), ("a", "b"));
    assert_eq!(versions.from_extra, Some("e".to_string()));
    assert_eq!(versions.to_extra, Some("f".to_string()));
    // They are visited like others.
    assert!(world.log.contains(&"fetch versions a".to_string()));
    assert!(world.log.contains(&"fetch versions b".to_string()));
}

#[test]
fn a_package_with_an_extra_cannot_depend_on_itself() {
    let mut world = world(vec![(extra("a", "e"), Range::full())]);
    world.versions = vec![("a", 1, vec![(with_extra("a", "e", None), Range::full())])];
    match world.fail() {
        ResolveError::SelfDependency { package, version } => {
            assert_eq!(show(&package), "a[e]");
            assert_eq!(version.release, vec![1]);
        }
        _ => panic!("the package depends on itself"),
    }
}

#[test]
fn a_package_with_an_extra_may_stand_alone() {
    // Nothing ties a package with an extra to the plain one unless it is asked for as an extra.
    let mut world =
        world(vec![(with_extra("a", "e", None), Range::full()), (package("a"), below(2))]);
    world.versions = vec![("a", 1, vec![]), ("a", 2, vec![])];
    assert_eq!(packages(&world.resolve()), vec!["a [1]", "a[e] [2]"]);
}

/// A specifier that excludes the highest release there can be, which cannot be converted to a
/// range.
fn not_the_highest() -> VersionSpecifier {
    VersionSpecifier { operator: Operator::NotEqualStar, version: release(&[u64::MAX]) }
}

#[test]
fn specifiers_are_converted_only_if_they_have_to_be() {
    // The Python version suits, so that the specifier is never converted.
    let mut world = world(vec![(at_url("a", "file:///a"), Range::full())]);
    world.url_metadata = || Some(found(1, Some(vec![not_the_highest()])));
    assert_eq!(packages(&world.resolve()), vec!["a @ file:///a [1]"]);
    // It does not suit another specifier, so that all of them would have to be converted.
    let mut resolver = resolver();
    let mut answer = Answer::Proceed;
    loop {
        match resolver.advance(answer).outcome {
            Ok(Query::Metadata { .. }) => break,
            Ok(query) => answer = world.answer(&resolver, query).unwrap(),
            Err(_) => panic!("the requirements can be resolved"),
        }
    }
    let newer = VersionSpecifier {
        operator: Operator::GreaterThanEqual,
        version: release(&[4]),
    };
    let refused = found(1, Some(vec![not_the_highest(), newer.clone()]));
    assert!(!resolver.accepts(&Answer::Metadata(Some(refused))));
    assert!(resolver.accepts(&Answer::Metadata(Some(found(1, Some(vec![newer]))))));
}
