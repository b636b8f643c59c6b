use uv_resolver::availability::{IncompatibleDist, UnavailablePackage};
use uv_resolver::dist::{
    BuiltDist, BuiltKind, Dist, InstalledDist, PrioritizedDist, RegistrySourceDist, ResolvedDist,
    ResolvedDistRef, SourceDist, SourceKind,
};
use uv_resolver::error::ResolveError;
use uv_resolver::fetch::{
    fetch, is_awaited, process_request, resume_request, Arrived, Pending, Progress, Record,
    Response,
};
use uv_resolver::range::Range;
use uv_resolver::request::Request;
use uv_resolver::selection::{Candidate, CandidateDist, MetadataResponse, VersionsResponse};
use uv_resolver::version::{Edge, Version};

fn release(numbers: &[u64]) -> Version {
    Version {
        epoch: 0,
        release: numbers.to_vec(),
        pre: None,
        post: None,
        dev: None,
        local: Vec::new(),
        edge: Edge::Within,
    }
}

fn built(kind: BuiltKind) -> BuiltDist {
    BuiltDist { kind, id: "a-1".to_string(), text: "a==1".to_string() }
}

fn source(kind: SourceKind) -> SourceDist {
    SourceDist { kind, id: "a-1".to_string(), text: "a==1".to_string() }
}

fn installed() -> InstalledDist {
    InstalledDist { id: "a-1".to_string(), text: "a==1 (installed)".to_string() }
}

fn wheel() -> ResolvedDistRef {
    ResolvedDistRef::InstallableRegistryBuiltDist {
        filename: "a-1.whl".to_string(),
        prioritized: PrioritizedDist {
            source_dist: None,
            best_wheel: Some("a-1.whl".to_string()),
            built_dist: Some(built(BuiltKind::Registry)),
        },
    }
}

fn sdist(version: &[u64]) -> ResolvedDistRef {
    ResolvedDistRef::InstallableRegistrySourceDist {
        name: "a".to_string(),
        version: release(version),
        prioritized: PrioritizedDist {
            source_dist: Some(RegistrySourceDist {
                name: "a".to_string(),
                version: release(&[1]),
                dist: source(SourceKind::Registry),
            }),
            best_wheel: None,
            built_dist: None,
        },
    }
}

fn candidate(dist: ResolvedDistRef) -> Candidate {
    Candidate {
        version: release(&[1]),
        dist: CandidateDist::Compatible {
            id: "a-1".to_string(),
            for_installation: ResolvedDist::Installed(installed()),
            for_resolution: dist,
        },
    }
}

type Arrival = Arrived<u8, u8>;

#[test]
fn requests_are_displayed() {
    let range = Range::higher_than(&release(&[1]));
    assert_eq!(Request::Package("flask".to_string()).display(), "Versions flask");
    assert_eq!(Request::Dist(Dist::Built(built(BuiltKind::Path))).display(), "Metadata a==1");
    assert_eq!(Request::Installed(installed()).display(), "Installed metadata a==1 (installed)");
    assert_eq!(Request::Prefetch("flask".to_string(), range).display(), "Prefetch flask >=1");
}

#[test]
fn requests_come_from_chosen_distributions() {
    assert!(wheel().is_consistent());
    match Request::from(&wheel()) {
        Request::Dist(Dist::Built(dist)) => assert_eq!(dist.id, "a-1"),
        _ => panic!("a wheel was chosen"),
    }
    assert!(sdist(&[1]).is_consistent());
    assert!(sdist(&[1, 0]).is_consistent());
    match Request::from(&sdist(&[1])) {
        Request::Dist(Dist::Source(dist)) => assert_eq!(dist.kind, SourceKind::Registry),
        _ => panic!("a source distribution was chosen"),
    }
    match Request::from(&ResolvedDistRef::Installed(installed())) {
        Request::Installed(dist) => assert_eq!(dist.id, "a-1"),
        _ => panic!("an installed distribution was chosen"),
    }
}

#[test]
fn chosen_distributions_match_their_version() {
    assert!(!sdist(&[2]).is_consistent());
    let other = ResolvedDistRef::InstallableRegistryBuiltDist {
        filename: "b-1.whl".to_string(),
        prioritized: PrioritizedDist {
            source_dist: None,
            best_wheel: Some("a-1.whl".to_string()),
            built_dist: Some(built(BuiltKind::Registry)),
        },
    };
    assert!(!other.is_consistent());
}

#[test]
fn versions_are_fetched_and_recorded() {
    let pending = process_request(Request::Package("a".to_string()));
    let arrived: Arrival = Arrived::Versions(Ok(VersionsResponse::Found(7)));
    assert!(is_awaited(&pending, &arrived));
    let response = match resume_request(pending, arrived) {
        Progress::Done { unavailable: None, response } => response,
        _ => panic!("the request is done"),
    };
    match fetch(response) {
        Ok(Some(Record::Package(name, VersionsResponse::Found(versions)))) => {
            assert_eq!(name, "a");
            assert_eq!(versions, 7);
        }
        _ => panic!("the versions are recorded"),
    }
}

#[test]
fn client_errors_are_passed_on() {
    let pending = process_request(Request::Package("a".to_string()));
    let arrived: Arrival = Arrived::Versions(Err("no route".to_string()));
    let response = match resume_request(pending, arrived) {
        Progress::Done { response, .. } => response,
        _ => panic!("the request is done"),
    };
    match fetch(response) {
        Err(ResolveError::Client(text)) => assert_eq!(text, "no route"),
        _ => panic!("the request failed"),
    }
}

#[test]
fn metadata_is_recorded_for_its_distribution() {
    for dist in [Dist::Built(built(BuiltKind::Registry)), Dist::Source(source(SourceKind::Git))] {
        let pending = process_request(Request::Dist(dist));
        let arrived: Arrival = Arrived::Metadata(Ok(MetadataResponse::Found(3)));
        let response = match resume_request(pending, arrived) {
            Progress::Done { response, .. } => response,
            _ => panic!("the request is done"),
        };
        match fetch(response) {
            Ok(Some(Record::Distribution(id, MetadataResponse::Found(metadata)))) => {
                assert_eq!(id, "a-1");
                assert_eq!(metadata, 3);
            }
            _ => panic!("the metadata is recorded"),
        }
    }
}

#[test]
fn installed_metadata_is_recorded_as_found() {
    let pending = process_request(Request::Installed(installed()));
    let arrived: Arrival = Arrived::Installed(Ok(4));
    match resume_request(pending, arrived) {
        Progress::Done { response, .. } => match fetch(response) {
            Ok(Some(Record::Distribution(id, MetadataResponse::Found(metadata)))) => {
                assert_eq!(id, "a-1");
                assert_eq!(metadata, 4);
            }
            _ => panic!("the metadata is recorded"),
        },
        _ => panic!("the request is done"),
    }
    let pending = process_request(Request::Installed(installed()));
    let arrived: Arrival = Arrived::Installed(Err("unreadable".to_string()));
    match resume_request(pending, arrived) {
        Progress::Done { response: Err(ResolveError::ReadInstalled(dist, text)), .. } => {
            assert_eq!(dist.id, "a-1");
            assert_eq!(text, "unreadable");
        }
        _ => panic!("the request failed"),
    }
}

#[test]
fn metadata_errors_follow_the_distribution() {
    let error = |dist: Dist| {
        let arrived: Arrival = Arrived::Metadata(Err("broken".to_string()));
        match resume_request(process_request(Request::Dist(dist)), arrived) {
            Progress::Done { response: Err(error), .. } => match error {
                ResolveError::Read(_, text) => format!("read {text}"),
                ResolveError::Fetch(_, text) => format!("fetch {text}"),
                ResolveError::Build(_, text) => format!("build {text}"),
                ResolveError::FetchAndBuild(_, text) => format!("fetch and build {text}"),
                _ => panic!("another error"),
            },
            _ => panic!("the request failed"),
        }
    };
    assert_eq!(error(Dist::Built(built(BuiltKind::Path))), "read broken");
    assert_eq!(error(Dist::Built(built(BuiltKind::DirectUrl))), "fetch broken");
    assert_eq!(error(Dist::Built(built(BuiltKind::Registry))), "fetch broken");
    assert_eq!(error(Dist::Source(source(SourceKind::Path))), "build broken");
    assert_eq!(error(Dist::Source(source(SourceKind::Directory))), "build broken");
    assert_eq!(error(Dist::Source(source(SourceKind::Git))), "fetch and build broken");
    assert_eq!(error(Dist::Source(source(SourceKind::Registry))), "fetch and build broken");
    assert_eq!(error(Dist::Source(source(SourceKind::DirectUrl))), "fetch and build broken");
}

fn prefetch() -> Pending {
    process_request(Request::Prefetch("a".to_string(), Range::full()))
}

#[test]
fn a_prefetch_becomes_a_request_for_metadata() {
    let arrived: Arrival = Arrived::Index(Some(VersionsResponse::Found(())));
    let pending = match resume_request(prefetch(), arrived) {
        Progress::Waiting(pending) => pending,
        _ => panic!("a candidate is needed"),
    };
    let arrived: Arrival = Arrived::Selection(Some(candidate(wheel())));
    assert!(is_awaited(&pending, &arrived));
    let pending = match resume_request(pending, arrived) {
        Progress::Waiting(pending) => pending,
        _ => panic!("the distribution is to be registered"),
    };
    match &pending {
        Pending::Registration { id, .. } => assert_eq!(id, "a-1"),
        _ => panic!("the distribution is to be registered"),
    }
    let arrived: Arrival = Arrived::Registration(true);
    match resume_request(pending, arrived) {
        Progress::Waiting(Pending::Metadata(dist)) => assert_eq!(dist.version_id(), "a-1"),
        _ => panic!("the metadata is needed"),
    }
}

#[test]
fn a_prefetch_ends_without_a_response() {
    let nothing = |pending: Pending, arrived: Arrival| match resume_request(pending, arrived) {
        Progress::Done { unavailable, response: Ok(None) } => unavailable,
        _ => panic!("there is no response"),
    };
    let reason = |versions: VersionsResponse<()>| {
        let (name, reason) = nothing(prefetch(), Arrived::Index(Some(versions))).unwrap();
        assert_eq!(name, "a");
        reason
    };
    assert!(matches!(reason(VersionsResponse::NoIndex), UnavailablePackage::NoIndex));
    assert!(matches!(reason(VersionsResponse::Offline), UnavailablePackage::Offline));
    assert!(matches!(reason(VersionsResponse::NotFound), UnavailablePackage::NotFound));
    let selection = || Pending::Selection("a".to_string(), Range::full());
    assert!(nothing(selection(), Arrived::Selection(None)).is_none());
    let incompatible = Candidate {
        version: release(&[1]),
        dist: CandidateDist::Incompatible(IncompatibleDist::Unavailable),
    };
    assert!(nothing(selection(), Arrived::Selection(Some(incompatible))).is_none());
    let registration = Pending::Registration {
        id: "a-1".to_string(),
        dist: ResolvedDist::Installed(installed()),
    };
    assert!(nothing(registration, Arrived::Registration(false)).is_none());
}

#[test]
fn a_prefetch_of_an_unregistered_package_fails() {
    let arrived: Arrival = Arrived::Index(None);
    assert!(matches!(
        resume_request(prefetch(), arrived),
        Progress::Done { response: Err(ResolveError::Unregistered), .. }
    ));
}

#[test]
fn a_prefetch_may_come_up_with_an_installed_distribution() {
    let pending = Pending::Registration {
        id: "a-1".to_string(),
        dist: ResolvedDist::Installed(installed()),
    };
    let arrived: Arrival = Arrived::Registration(true);
    assert!(matches!(
        resume_request(pending, arrived),
        Progress::Waiting(Pending::Installed(_))
    ));
}

#[test]
fn no_response_records_nothing() {
    let response: Result<Option<Response<u8, u8>>, ResolveError> = Ok(None);
    assert!(matches!(fetch(response), Ok(None)));
}

#[test]
fn an_answer_to_another_question_is_not_awaited() {
    let arrived: Arrival = Arrived::Registration(true);
    assert!(!is_awaited(&prefetch(), &arrived));
    let selection = Pending::Selection("a".to_string(), Range::full());
    let arrived: Arrival = Arrived::Selection(Some(candidate(sdist(&[2]))));
    assert!(!is_awaited(&selection, &arrived));
}
