use vstd::prelude::*;
use vstd::string::StringExecFns;

use crate::dist::{
    BuiltDist, Dist, InstalledDist, PrioritizedDist, ResolvedDist, ResolvedDistRef, SourceDist,
};
use crate::package::PackageName;
use crate::range::{displayed, Range, Segment};
use crate::version::Version;

verus! {

/// A request to fetch the metadata of an item.
pub enum Request {
    /// A request to fetch the metadata for a package.
    Package(PackageName),
    /// A request to fetch the metadata for a built or source distribution.
    Dist(Dist),
    /// A request to fetch the metadata from an already-installed distribution.
    Installed(InstalledDist),
    /// A request to pre-fetch the metadata for a package and the best-guess distribution.
    Prefetch(PackageName, Range),
}

/// What a [`Request`] asks for.
pub enum RequestView {
    Package(Seq<char>),
    Dist(Dist),
    Installed(InstalledDist),
    Prefetch(Seq<char>, Seq<Segment>),
}

impl View for Request {
    type V = RequestView;

    open spec fn view(&self) -> RequestView {
        match self {
            Request::Package(name) => RequestView::Package(name@),
            Request::Dist(dist) => RequestView::Dist(*dist),
            Request::Installed(dist) => RequestView::Installed(*dist),
            Request::Prefetch(name, range) => RequestView::Prefetch(name@, range@),
        }
    }
}

impl Clone for Request {
    fn clone(&self) -> (copy: Self)
        ensures
            copy@ == self@,
    {
        match self {
            Request::Package(name) => Request::Package(name.clone()),
            Request::Dist(dist) => Request::Dist(dist.clone()),
            Request::Installed(dist) => Request::Installed(dist.clone()),
            Request::Prefetch(name, range) => Request::Prefetch(name.clone(), range.clone()),
        }
    }
}

impl Request {
    /// The request for the metadata of a distribution.
    pub open spec fn of(dist: ResolvedDist) -> Request {
        match dist {
            ResolvedDist::Installable(dist) => Request::Dist(dist),
            ResolvedDist::Installed(dist) => Request::Installed(dist),
        }
    }

    /// The request for the metadata of the distribution that was chosen for a package.
    pub fn from(dist: &ResolvedDistRef) -> (request: Request)
        requires
            dist.consistent(),
        ensures
            request == Request::of(dist.chosen()),
    {
        match dist.to_owned() {
            ResolvedDist::Installable(dist) => Request::Dist(dist),
            ResolvedDist::Installed(dist) => Request::Installed(dist),
        }
    }

    /// How the request is displayed.
    pub open spec fn text(&self) -> Seq<char> {
        match self {
            Request::Package(name) => "Versions "@ + name@,
            Request::Dist(dist) => "Metadata "@ + dist.text(),
            Request::Installed(dist) => "Installed metadata "@ + dist.text@,
            Request::Prefetch(name, range) => "Prefetch "@ + name@ + " "@ + displayed(range@),
        }
    }

    /// How the request is displayed.
    pub fn display(&self) -> (text: String)
        ensures
            text@ == self.text(),
    {
        match self {
            Request::Package(name) => "Versions ".to_owned().concat(name.as_str()),
            Request::Dist(dist) => {
                let dist = dist.display();
                "Metadata ".to_owned().concat(dist.as_str())
            },
            Request::Installed(dist) => {
                "Installed metadata ".to_owned().concat(dist.text.as_str())
            },
            Request::Prefetch(name, range) => {
                let range = range.text();
                let text = "Prefetch ".to_owned().concat(name.as_str()).concat(" ");
                text.concat(range.as_str())
            },
        }
    }
}

/// A request is displayed as what it asks for, followed by the item that it asks about.
pub proof fn law_requests_name_their_item(
    name: PackageName,
    built: BuiltDist,
    source: SourceDist,
    installed: InstalledDist,
    range: Range,
)
    ensures
        Request::Package(name).text() == "Versions "@ + name@,
        Request::Dist(Dist::Built(built)).text() == "Metadata "@ + built.text@,
        Request::Dist(Dist::Source(source)).text() == "Metadata "@ + source.text@,
        Request::Installed(installed).text() == "Installed metadata "@ + installed.text@,
        Request::Prefetch(name, range).text() == "Prefetch "@ + name@ + " "@ + displayed(range@),
{
}

/// The metadata of a chosen source distribution is asked for as that of the source distribution of
/// its version, the metadata of a wheel as that of the wheels of its version, and the metadata of
/// an installed distribution as that of the installed one.
pub proof fn law_the_chosen_distribution_is_requested(
    name: PackageName,
    version: Version,
    filename: String,
    prioritized: PrioritizedDist,
    installed: InstalledDist,
)
    ensures
        prioritized.source_dist matches Some(source) ==> Request::of(
            (ResolvedDistRef::InstallableRegistrySourceDist { name, version, prioritized }).chosen(),
        ) == Request::Dist(Dist::Source(source.dist)),
        prioritized.built_dist matches Some(built) ==> Request::of(
            (ResolvedDistRef::InstallableRegistryBuiltDist { filename, prioritized }).chosen(),
        ) == Request::Dist(Dist::Built(built)),
        Request::of(ResolvedDistRef::Installed(installed).chosen()) == Request::Installed(installed),
{
}

} // verus!
