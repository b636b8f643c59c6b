use vstd::prelude::*;

use crate::availability::{IncompatibleDist, UnavailablePackage};
use crate::choices::metadata_request;
use crate::dist::{
    BuiltDist, BuiltKind, Dist, InstalledDist, ResolvedDist, ResolvedDistRef, SourceDist,
    SourceKind,
};
use crate::error::ResolveError;
use crate::package::PackageName;
use crate::range::Range;
use crate::request::Request;
use crate::selection::{
    unavailable_from_versions, versions_reason, Candidate, CandidateDist, MetadataResponse,
    VersionsResponse,
};
use crate::version::Version;

verus! {

/// The response to a request.
#[allow(inconsistent_fields)]
pub enum Response<V, A> {
    /// The returned metadata for a package hosted on a registry.
    Package(PackageName, VersionsResponse<V>),
    /// The returned metadata for a distribution.
    Dist { dist: Dist, metadata: MetadataResponse<A> },
    /// The returned metadata for an already-installed distribution.
    Installed { dist: InstalledDist, metadata: A },
}

/// What a request waits for while it is processed.
pub enum Pending {
    /// The versions of a package, from the registry.
    Versions(PackageName),
    /// The metadata of a distribution, from the distribution database.
    Metadata(Dist),
    /// The metadata of an installed distribution.
    Installed(InstalledDist),
    /// The versions of a package, from the index.
    Index(PackageName, Range),
    /// The best candidate of a package in a range.
    Selection(PackageName, Range),
    /// Whether nobody asked for the metadata of a distribution before.
    Registration { id: String, dist: ResolvedDist },
}

/// What a request was waiting for.
pub enum Arrived<V, A> {
    Versions(Result<VersionsResponse<V>, String>),
    Metadata(Result<MetadataResponse<A>, String>),
    Installed(Result<A, String>),
    /// `None` if nobody was asked to fetch the versions.
    Index(Option<VersionsResponse<()>>),
    /// `None` if there is no candidate.
    Selection(Option<Candidate>),
    /// Whether nobody asked before.
    Registration(bool),
}

/// How far a request is.
pub enum Progress<V, A> {
    /// It waits for something more.
    Waiting(Pending),
    /// It is done: here is the response, if there is one. A package may have to be marked as
    /// unavailable.
    Done {
        unavailable: Option<(PackageName, UnavailablePackage)>,
        response: Result<Option<Response<V, A>>, ResolveError>,
    },
}

/// What is to be entered into the index.
pub enum Record<V, A> {
    /// The versions of a package.
    Package(PackageName, VersionsResponse<V>),
    /// The metadata of a distribution, under its identifier.
    Distribution(String, MetadataResponse<A>),
}

/// What a request waits for first.
pub open spec fn first_pending(request: Request) -> Pending {
    match request {
        Request::Package(name) => Pending::Versions(name),
        Request::Dist(dist) => Pending::Metadata(dist),
        Request::Installed(dist) => Pending::Installed(dist),
        Request::Prefetch(name, range) => Pending::Index(name, range),
    }
}

/// Start to process a request.
pub fn process_request(request: Request) -> (pending: Pending)
    ensures
        pending == first_pending(request),
{
    match request {
        // Fetch package metadata from the registry.
        Request::Package(name) => Pending::Versions(name),
        // Fetch distribution metadata from the distribution database.
        Request::Dist(dist) => Pending::Metadata(dist),
        Request::Installed(dist) => Pending::Installed(dist),
        // Pre-fetch the package and distribution metadata, once the package metadata is available.
        Request::Prefetch(name, range) => Pending::Index(name, range),
    }
}

/// The error of a distribution whose metadata could not be had: a wheel on disk could not be read
/// and one elsewhere not fetched, a source distribution on disk could not be built and one
/// elsewhere not fetched or built.
pub open spec fn dist_error(dist: Dist, text: String) -> ResolveError {
    match dist {
        Dist::Built(dist) => if dist.kind is Path {
            ResolveError::Read(dist, text)
        } else {
            ResolveError::Fetch(dist, text)
        },
        Dist::Source(dist) => if dist.kind is Path || dist.kind is Directory {
            ResolveError::Build(dist, text)
        } else {
            ResolveError::FetchAndBuild(dist, text)
        },
    }
}

/// The error of a distribution whose metadata could not be had.
fn metadata_error(dist: Dist, text: String) -> (error: ResolveError)
    ensures
        error == dist_error(dist, text),
{
    match dist {
        Dist::Built(dist) => match dist.kind {
            BuiltKind::Path => ResolveError::Read(dist, text),
            _ => ResolveError::Fetch(dist, text),
        },
        Dist::Source(dist) => match dist.kind {
            SourceKind::Path => ResolveError::Build(dist, text),
            SourceKind::Directory => ResolveError::Build(dist, text),
            _ => ResolveError::FetchAndBuild(dist, text),
        },
    }
}

/// A request that is done.
pub open spec fn done<V, A>(response: Result<Option<Response<V, A>>, ResolveError>) -> Progress<
    V,
    A,
> {
    Progress::Done { unavailable: None, response }
}

/// Whether what arrived is what the request waited for.
pub open spec fn awaited<V, A>(pending: Pending, arrived: Arrived<V, A>) -> bool {
    match (pending, arrived) {
        (Pending::Versions(_), Arrived::Versions(_)) => true,
        (Pending::Metadata(_), Arrived::Metadata(_)) => true,
        (Pending::Installed(_), Arrived::Installed(_)) => true,
        (Pending::Index(..), Arrived::Index(_)) => true,
        (Pending::Selection(..), Arrived::Selection(candidate)) => candidate matches Some(
            Candidate { dist: CandidateDist::Compatible { for_resolution, .. }, .. },
        ) ==> for_resolution.consistent(),
        (Pending::Registration { .. }, Arrived::Registration(_)) => true,
        _ => false,
    }
}

/// Whether what arrived is what the request waited for.
pub fn is_awaited<V, A>(pending: &Pending, arrived: &Arrived<V, A>) -> (answer: bool)
    ensures
        answer == awaited(*pending, *arrived),
{
    match (pending, arrived) {
        (Pending::Versions(_), Arrived::Versions(_)) => true,
        (Pending::Metadata(_), Arrived::Metadata(_)) => true,
        (Pending::Installed(_), Arrived::Installed(_)) => true,
        (Pending::Index(..), Arrived::Index(_)) => true,
        (
            Pending::Selection(..),
            Arrived::Selection(
                Some(Candidate { dist: CandidateDist::Compatible { for_resolution, .. }, .. }),
            ),
        ) => for_resolution.is_consistent(),
        (Pending::Selection(..), Arrived::Selection(_)) => true,
        (Pending::Registration { .. }, Arrived::Registration(_)) => true,
        _ => false,
    }
}

/// How a request goes on with what arrived. A prefetch ends without a response if the package was
/// not found, which is noted, if there is no candidate that can be used, or if somebody already
/// asked for its metadata.
pub open spec fn progress<V, A>(pending: Pending, arrived: Arrived<V, A>) -> Progress<V, A> {
    match (pending, arrived) {
        (Pending::Versions(name), Arrived::Versions(Ok(versions))) => done(
            Ok(Some(Response::Package(name, versions))),
        ),
        (Pending::Versions(_), Arrived::Versions(Err(text))) => done(
            Err(ResolveError::Client(text)),
        ),
        (Pending::Metadata(dist), Arrived::Metadata(Ok(metadata))) => done(
            Ok(Some(Response::Dist { dist, metadata })),
        ),
        (Pending::Metadata(dist), Arrived::Metadata(Err(text))) => done(
            Err(dist_error(dist, text)),
        ),
        (Pending::Installed(dist), Arrived::Installed(Ok(metadata))) => done(
            Ok(Some(Response::Installed { dist, metadata })),
        ),
        (Pending::Installed(dist), Arrived::Installed(Err(text))) => done(
            Err(ResolveError::ReadInstalled(dist, text)),
        ),
        (Pending::Index(..), Arrived::Index(None)) => done(Err(ResolveError::Unregistered)),
        (Pending::Index(name, range), Arrived::Index(Some(versions))) => match versions_reason(
            versions,
        ) {
            Some(reason) => Progress::Done {
                unavailable: Some((name, reason)),
                response: Ok(None),
            },
            None => Progress::Waiting(Pending::Selection(name, range)),
        },
        (
            Pending::Selection(..),
            Arrived::Selection(
                Some(Candidate { dist: CandidateDist::Compatible { id, for_resolution, .. }, .. }),
            ),
        ) => Progress::Waiting(Pending::Registration { id, dist: for_resolution.chosen() }),
        (Pending::Registration { dist, .. }, Arrived::Registration(true)) => match dist {
            ResolvedDist::Installable(dist) => Progress::Waiting(Pending::Metadata(dist)),
            ResolvedDist::Installed(dist) => Progress::Waiting(Pending::Installed(dist)),
        },
        _ => done(Ok(None)),
    }
}

/// Go on with a request.
pub fn resume_request<V, A>(pending: Pending, arrived: Arrived<V, A>) -> (reached: Progress<V, A>)
    requires
        awaited(pending, arrived),
    ensures
        reached == progress(pending, arrived),
{
    let response = match (pending, arrived) {
        (Pending::Versions(name), Arrived::Versions(versions)) => match versions {
            Ok(versions) => Ok(Some(Response::Package(name, versions))),
            Err(text) => Err(ResolveError::Client(text)),
        },
        (Pending::Metadata(dist), Arrived::Metadata(metadata)) => match metadata {
            Ok(metadata) => Ok(Some(Response::Dist { dist, metadata })),
            Err(text) => Err(metadata_error(dist, text)),
        },
        (Pending::Installed(dist), Arrived::Installed(metadata)) => match metadata {
            Ok(metadata) => Ok(Some(Response::Installed { dist, metadata })),
            Err(text) => Err(ResolveError::ReadInstalled(dist, text)),
        },
        (Pending::Index(name, range), Arrived::Index(versions)) => match versions {
            Some(versions) => {
                // Short-circuit if we did not find any versions for the package.
                match unavailable_from_versions(&versions) {
                    Some(reason) => {
                        return Progress::Done {
                            unavailable: Some((name, reason)),
                            response: Ok(None),
                        };
                    },
                    None => {
                        return Progress::Waiting(Pending::Selection(name, range));
                    },
                }
            },
            None => Err(ResolveError::Unregistered),
        },
        // Try to find a compatible version. If there aren't any compatible versions,
        // short-circuit.
        (Pending::Selection(_, _), Arrived::Selection(candidate)) => match candidate {
            Some(Candidate { dist: CandidateDist::Compatible { id, for_resolution, .. }, .. }) => {
                let dist = for_resolution.to_owned();
                return Progress::Waiting(Pending::Registration { id, dist });
            },
            _ => Ok(None),
        },
        // Emit a request to fetch the metadata for this version.
        (Pending::Registration { dist, .. }, Arrived::Registration(registered)) => {
            if registered {
                match dist {
                    ResolvedDist::Installable(dist) => {
                        return Progress::Waiting(Pending::Metadata(dist));
                    },
                    ResolvedDist::Installed(dist) => {
                        return Progress::Waiting(Pending::Installed(dist));
                    },
                }
            }
            Ok(None)
        },
        _ => Ok(None),
    };
    Progress::Done { unavailable: None, response }
}

/// Whether the record is what the response is entered as: the versions of a package under its
/// name, and metadata under the identifier of its distribution.
pub open spec fn records<V, A>(record: Record<V, A>, response: Response<V, A>) -> bool {
    match response {
        Response::Package(name, versions) => record == Record::<V, A>::Package(name, versions),
        Response::Dist { dist, metadata } => record matches Record::Distribution(id, found)
            && id@ == dist.id() && found == metadata,
        Response::Installed { dist, metadata } => record == Record::<V, A>::Distribution(
            dist.id,
            MetadataResponse::Found(metadata),
        ),
    }
}

/// Whether what is entered into the index is what the response is entered as: nothing if there is
/// no response, and the error of a failed request.
pub open spec fn enters<V, A>(
    record: Result<Option<Record<V, A>>, ResolveError>,
    response: Result<Option<Response<V, A>>, ResolveError>,
) -> bool {
    match response {
        Err(error) => record == Err::<Option<Record<V, A>>, ResolveError>(error),
        Ok(None) => record == Ok::<Option<Record<V, A>>, ResolveError>(None),
        Ok(Some(response)) => record matches Ok(Some(record)) && records(record, response),
    }
}

/// What a response is entered as into the index. A failed request ends the fetching.
pub fn fetch<V, A>(response: Result<Option<Response<V, A>>, ResolveError>) -> (record: Result<
    Option<Record<V, A>>,
    ResolveError,
>)
    ensures
        enters(record, response),
{
    match response {
        Err(error) => Err(error),
        Ok(None) => Ok(None),
        Ok(Some(Response::Package(name, versions))) => Ok(Some(Record::Package(name, versions))),
        Ok(Some(Response::Dist { dist, metadata })) => {
            Ok(Some(Record::Distribution(dist.version_id(), metadata)))
        },
        Ok(Some(Response::Installed { dist, metadata })) => {
            Ok(Some(Record::Distribution(dist.id, MetadataResponse::Found(metadata))))
        },
    }
}

/// A request for a distribution that is answered with metadata leads to a response that is entered
/// under the identifier of the distribution, with that metadata.
pub proof fn law_metadata_is_recorded_for_its_distribution<V, A>(
    dist: Dist,
    metadata: MetadataResponse<A>,
    record: Record<V, A>,
)
    requires
        progress(
            first_pending(Request::Dist(dist)),
            Arrived::<V, A>::Metadata(Ok(metadata)),
        ) matches Progress::Done { response: Ok(Some(response)), .. } && records(record, response),
    ensures
        record matches Record::Distribution(id, found) && id@ == dist.id() && found == metadata,
{
}

/// A prefetch goes the way of a request for the distribution it comes up with, once it is the
/// first to ask.
pub proof fn law_prefetch_goes_on_as_a_request<V, A>(id: String, dist: ResolvedDist)
    ensures
        progress(
            Pending::Registration { id, dist },
            Arrived::<V, A>::Registration(true),
        ) == Progress::<V, A>::Waiting(first_pending(Request::of(dist))),
        progress(
            Pending::Registration { id, dist },
            Arrived::<V, A>::Registration(false),
        ) == done::<V, A>(Ok(None)),
{
}

/// Whether a request that is answered is done, with a response that is entered as the record and
/// as nothing else, and without a package to mark as unavailable.
pub open spec fn is_recorded<V, A>(
    request: Request,
    arrived: Arrived<V, A>,
    record: Record<V, A>,
) -> bool {
    progress(first_pending(request), arrived) matches Progress::Done { unavailable, response } && {
        &&& unavailable is None
        &&& response matches Ok(Some(_))
        &&& forall|entered: Result<Option<Record<V, A>>, ResolveError>| #[trigger]
            enters(entered, response) ==> (entered matches Ok(Some(other)) && same_record(
                other,
                record,
            ))
    }
}

/// Whether two records enter the same under the same name.
pub open spec fn same_record<V, A>(one: Record<V, A>, other: Record<V, A>) -> bool {
    match (one, other) {
        (Record::Package(name, versions), Record::Package(other, found)) => name@ == other@
            && versions == found,
        (Record::Distribution(id, metadata), Record::Distribution(other, found)) => id@ == other@
            && metadata == found,
        _ => false,
    }
}

/// Whether a request that is answered fails with the error, which ends the fetching.
pub open spec fn is_failure<V, A>(
    pending: Pending,
    arrived: Arrived<V, A>,
    error: ResolveError,
) -> bool {
    progress(pending, arrived) matches Progress::Done { unavailable, response } && {
        &&& unavailable is None
        &&& forall|entered: Result<Option<Record<V, A>>, ResolveError>| #[trigger]
            enters(entered, response) ==> entered == Err::<Option<Record<V, A>>, ResolveError>(
                error,
            )
    }
}

/// Whether a request that is answered is done without a response, so that nothing is entered.
pub open spec fn is_dropped<V, A>(
    pending: Pending,
    arrived: Arrived<V, A>,
    unavailable: Option<(PackageName, UnavailablePackage)>,
) -> bool {
    progress(pending, arrived) matches Progress::Done { unavailable: marked, response } && {
        &&& marked == unavailable
        &&& forall|entered: Result<Option<Record<V, A>>, ResolveError>| #[trigger]
            enters(entered, response) ==> entered == Ok::<Option<Record<V, A>>, ResolveError>(None)
    }
}

/// Every answer of the registry is recorded under the name of the package, as it is: also that the
/// package was not found, that there is no index, or that it could not be asked.
pub proof fn law_every_answer_of_the_registry_is_recorded<V, A>(
    name: PackageName,
    versions: VersionsResponse<V>,
)
    ensures
        is_recorded(
            Request::Package(name),
            Arrived::<V, A>::Versions(Ok(versions)),
            Record::Package(name, versions),
        ),
{
}

/// Every metadata of a distribution is recorded under its identifier, as it is: also that it is
/// missing or invalid.
pub proof fn law_every_metadata_is_recorded<V, A>(
    dist: Dist,
    metadata: MetadataResponse<A>,
    id: String,
)
    requires
        id@ == match dist {
            Dist::Built(dist) => dist.id@,
            Dist::Source(dist) => dist.id@,
        },
    ensures
        is_recorded(
            Request::Dist(dist),
            Arrived::<V, A>::Metadata(Ok(metadata)),
            Record::Distribution(id, metadata),
        ),
{
}

/// The metadata of an installed distribution is recorded as found, under its identifier.
pub proof fn law_installed_metadata_is_recorded<V, A>(dist: InstalledDist, metadata: A)
    ensures
        is_recorded(
            Request::Installed(dist),
            Arrived::<V, A>::Installed(Ok(metadata)),
            Record::Distribution(dist.id, MetadataResponse::Found(metadata)),
        ),
{
}

/// A request that fails ends the fetching, with an error that says what failed: the registry, a
/// wheel on disk that could not be read, another that could not be fetched, a source distribution
/// on disk that could not be built, another that could not be fetched and built, or an installed
/// distribution that could not be read.
pub proof fn law_failed_requests_end_the_fetching<V, A>(
    name: PackageName,
    built: BuiltDist,
    source: SourceDist,
    installed: InstalledDist,
    text: String,
)
    ensures
        is_failure(
            first_pending(Request::Package(name)),
            Arrived::<V, A>::Versions(Err(text)),
            ResolveError::Client(text),
        ),
        built.kind is Path ==> is_failure(
            first_pending(Request::Dist(Dist::Built(built))),
            Arrived::<V, A>::Metadata(Err(text)),
            ResolveError::Read(built, text),
        ),
        built.kind is Registry || built.kind is DirectUrl ==> is_failure(
            first_pending(Request::Dist(Dist::Built(built))),
            Arrived::<V, A>::Metadata(Err(text)),
            ResolveError::Fetch(built, text),
        ),
        source.kind is Path || source.kind is Directory ==> is_failure(
            first_pending(Request::Dist(Dist::Source(source))),
            Arrived::<V, A>::Metadata(Err(text)),
            ResolveError::Build(source, text),
        ),
        source.kind is Registry || source.kind is DirectUrl || source.kind is Git ==> is_failure(
            first_pending(Request::Dist(Dist::Source(source))),
            Arrived::<V, A>::Metadata(Err(text)),
            ResolveError::FetchAndBuild(source, text),
        ),
        is_failure(
            first_pending(Request::Installed(installed)),
            Arrived::<V, A>::Installed(Err(text)),
            ResolveError::ReadInstalled(installed, text),
        ),
{
}

/// A prefetch waits for the versions of its package. It goes on to a candidate in its range if they
/// were found, and otherwise ends with the package marked as unavailable, for the reason why they
/// were not. It fails if nobody fetches them.
pub proof fn law_a_prefetch_waits_for_versions<V, A>(name: PackageName, range: Range)
    ensures
        ({
            let pending = first_pending(Request::Prefetch(name, range));
            &&& progress(pending, Arrived::<V, A>::Index(Some(VersionsResponse::Found(()))))
                == Progress::<V, A>::Waiting(Pending::Selection(name, range))
            &&& is_dropped(
                pending,
                Arrived::<V, A>::Index(Some(VersionsResponse::NoIndex)),
                Some((name, UnavailablePackage::NoIndex)),
            )
            &&& is_dropped(
                pending,
                Arrived::<V, A>::Index(Some(VersionsResponse::Offline)),
                Some((name, UnavailablePackage::Offline)),
            )
            &&& is_dropped(
                pending,
                Arrived::<V, A>::Index(Some(VersionsResponse::NotFound)),
                Some((name, UnavailablePackage::NotFound)),
            )
            &&& is_failure(pending, Arrived::<V, A>::Index(None), ResolveError::Unregistered)
        }),
{
}

/// A prefetch goes on with the distribution of its candidate, under the identifier of it, if the
/// candidate has one that can be used, and ends otherwise. Once registered as the first to ask, it
/// goes on as a request for the metadata of that distribution; if somebody else asked before, it
/// ends.
pub proof fn law_a_prefetch_goes_on_with_its_candidate<V, A>(
    name: PackageName,
    range: Range,
    version: Version,
    id: String,
    for_installation: ResolvedDist,
    for_resolution: ResolvedDistRef,
    reason: IncompatibleDist,
)
    ensures
        is_dropped(
            Pending::Selection(name, range),
            Arrived::<V, A>::Selection(None),
            None,
        ),
        is_dropped(
            Pending::Selection(name, range),
            Arrived::<V, A>::Selection(
                Some(Candidate { version, dist: CandidateDist::Incompatible(reason) }),
            ),
            None,
        ),
        progress(
            Pending::Selection(name, range),
            Arrived::<V, A>::Selection(
                Some(
                    Candidate {
                        version,
                        dist: CandidateDist::Compatible { id, for_installation, for_resolution },
                    },
                ),
            ),
        ) matches Progress::Waiting(Pending::Registration { id: own, dist }) && {
            &&& own == id
            &&& progress(
                Pending::Registration { id: own, dist },
                Arrived::<V, A>::Registration(true),
            ) == Progress::<V, A>::Waiting(first_pending(metadata_request(for_resolution)))
            &&& is_dropped(
                Pending::Registration { id: own, dist },
                Arrived::<V, A>::Registration(false),
                None,
            )
        },
{
}

/// What a request waits for is awaited whatever it turns out to be.
pub proof fn law_every_answer_is_awaited<V, A>(
    name: PackageName,
    dist: Dist,
    installed: InstalledDist,
    range: Range,
    versions: Result<VersionsResponse<V>, String>,
    metadata: Result<MetadataResponse<A>, String>,
    read: Result<A, String>,
    index: Option<VersionsResponse<()>>,
)
    ensures
        awaited(first_pending(Request::Package(name)), Arrived::<V, A>::Versions(versions)),
        awaited(first_pending(Request::Dist(dist)), Arrived::<V, A>::Metadata(metadata)),
        awaited(first_pending(Request::Installed(installed)), Arrived::<V, A>::Installed(read)),
        awaited(first_pending(Request::Prefetch(name, range)), Arrived::<V, A>::Index(index)),
        awaited(Pending::Selection(name, range), Arrived::<V, A>::Selection(None)),
{
}

} // verus!
