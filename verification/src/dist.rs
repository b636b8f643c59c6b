use vstd::prelude::*;

use crate::collections::Keyed;
use crate::package::PackageName;
use crate::version::Version;

verus! {

/// Where a wheel comes from.
#[derive(Clone, Copy, Debug, PartialEq, Eq, Structural, Hash)]
pub enum BuiltKind {
    Registry,
    DirectUrl,
    Path,
}

/// Where a source distribution comes from.
#[derive(Clone, Copy, Debug, PartialEq, Eq, Structural, Hash)]
pub enum SourceKind {
    Registry,
    DirectUrl,
    Git,
    Path,
    Directory,
}

/// A wheel.
#[derive(Debug)]
pub struct BuiltDist {
    pub kind: BuiltKind,
    /// The identifier under which its metadata is kept.
    pub id: String,
    /// How the distribution is displayed.
    pub text: String,
}

/// A source distribution.
#[derive(Debug)]
pub struct SourceDist {
    pub kind: SourceKind,
    /// The identifier under which its metadata is kept.
    pub id: String,
    /// How the distribution is displayed.
    pub text: String,
}

/// A distribution that can be installed.
#[derive(Debug)]
pub enum Dist {
    Built(BuiltDist),
    Source(SourceDist),
}

/// A distribution that is already installed.
#[derive(Debug)]
pub struct InstalledDist {
    /// The identifier under which its metadata is kept.
    pub id: String,
    /// How the distribution is displayed.
    pub text: String,
}

/// A distribution that was chosen for a package.
#[derive(Debug)]
pub enum ResolvedDist {
    Installable(Dist),
    Installed(InstalledDist),
}

/// A source distribution of a registry.
pub struct RegistrySourceDist {
    pub name: PackageName,
    pub version: Version,
    pub dist: SourceDist,
}

/// The distributions of a version in a registry.
pub struct PrioritizedDist {
    /// The source distribution, if there is one.
    pub source_dist: Option<RegistrySourceDist>,
    /// The file name of the wheel that suits best, if there is a wheel.
    pub best_wheel: Option<String>,
    /// The wheels, the best one first, if there is one.
    pub built_dist: Option<BuiltDist>,
}

/// A distribution that was chosen for a package, among those of its version.
pub enum ResolvedDistRef {
    InstallableRegistrySourceDist {
        name: PackageName,
        version: Version,
        prioritized: PrioritizedDist,
    },
    InstallableRegistryBuiltDist { filename: String, prioritized: PrioritizedDist },
    Installed(InstalledDist),
}

impl Clone for BuiltDist {
    fn clone(&self) -> (copy: Self)
        ensures
            copy == *self,
    {
        BuiltDist { kind: self.kind, id: self.id.clone(), text: self.text.clone() }
    }
}

impl Clone for SourceDist {
    fn clone(&self) -> (copy: Self)
        ensures
            copy == *self,
    {
        SourceDist { kind: self.kind, id: self.id.clone(), text: self.text.clone() }
    }
}

impl Clone for InstalledDist {
    fn clone(&self) -> (copy: Self)
        ensures
            copy == *self,
    {
        InstalledDist { id: self.id.clone(), text: self.text.clone() }
    }
}

impl Clone for Dist {
    fn clone(&self) -> (copy: Self)
        ensures
            copy == *self,
    {
        match self {
            Dist::Built(dist) => Dist::Built(dist.clone()),
            Dist::Source(dist) => Dist::Source(dist.clone()),
        }
    }
}

impl Clone for ResolvedDist {
    fn clone(&self) -> (copy: Self)
        ensures
            copy == *self,
    {
        match self {
            ResolvedDist::Installable(dist) => ResolvedDist::Installable(dist.clone()),
            ResolvedDist::Installed(dist) => ResolvedDist::Installed(dist.clone()),
        }
    }
}

impl Dist {
    /// The identifier under which the metadata of the distribution is kept.
    pub open spec fn id(&self) -> Seq<char> {
        match self {
            Dist::Built(dist) => dist.id@,
            Dist::Source(dist) => dist.id@,
        }
    }

    /// How the distribution is displayed.
    pub open spec fn text(&self) -> Seq<char> {
        match self {
            Dist::Built(dist) => dist.text@,
            Dist::Source(dist) => dist.text@,
        }
    }

    /// The identifier under which the metadata of the distribution is kept.
    pub fn version_id(&self) -> (id: String)
        ensures
            id@ == self.id(),
    {
        match self {
            Dist::Built(dist) => dist.id.clone(),
            Dist::Source(dist) => dist.id.clone(),
        }
    }

    /// How the distribution is displayed.
    pub fn display(&self) -> (text: String)
        ensures
            text@ == self.text(),
    {
        match self {
            Dist::Built(dist) => dist.text.clone(),
            Dist::Source(dist) => dist.text.clone(),
        }
    }
}

impl ResolvedDistRef {
    /// Whether the chosen distribution is one of those of its version: a source distribution is
    /// the source distribution of the version, and a wheel its best wheel.
    pub open spec fn consistent(&self) -> bool {
        match self {
            ResolvedDistRef::InstallableRegistrySourceDist { name, version, prioritized } => {
                &&& prioritized.source_dist matches Some(source)
                &&& source.name@ == name@
                &&& source.version@.valid()
                &&& version@.valid()
                &&& source.version@.key() == version@.key()
            },
            ResolvedDistRef::InstallableRegistryBuiltDist { filename, prioritized } => {
                &&& prioritized.best_wheel matches Some(best)
                &&& best@ == filename@
                &&& prioritized.built_dist is Some
            },
            ResolvedDistRef::Installed(_) => true,
        }
    }

    /// Whether the chosen distribution is one of those of its version.
    pub fn is_consistent(&self) -> (answer: bool)
        ensures
            answer == self.consistent(),
    {
        match self {
            ResolvedDistRef::InstallableRegistrySourceDist { name, version, prioritized } => {
                match &prioritized.source_dist {
                    Some(source) => {
                        source.name == *name && source.version.is_valid() && version.is_valid()
                            && source.version.same(version)
                    },
                    None => false,
                }
            },
            ResolvedDistRef::InstallableRegistryBuiltDist { filename, prioritized } => {
                match &prioritized.best_wheel {
                    Some(best) => *best == *filename && prioritized.built_dist.is_some(),
                    None => false,
                }
            },
            ResolvedDistRef::Installed(_) => true,
        }
    }

    /// The distribution whose metadata stands for that of the version.
    pub open spec fn chosen(&self) -> ResolvedDist {
        match self {
            ResolvedDistRef::InstallableRegistrySourceDist { prioritized, .. } => {
                ResolvedDist::Installable(Dist::Source((prioritized.source_dist->0).dist))
            },
            ResolvedDistRef::InstallableRegistryBuiltDist { prioritized, .. } => {
                ResolvedDist::Installable(Dist::Built(prioritized.built_dist->0))
            },
            ResolvedDistRef::Installed(dist) => ResolvedDist::Installed(*dist),
        }
    }

    /// The distribution whose metadata stands for that of the version.
    pub fn to_owned(&self) -> (dist: ResolvedDist)
        requires
            self.consistent(),
        ensures
            dist == self.chosen(),
    {
        match self {
            ResolvedDistRef::InstallableRegistrySourceDist { prioritized, .. } => {
                let source = prioritized.source_dist.as_ref().unwrap();
                ResolvedDist::Installable(Dist::Source(source.dist.clone()))
            },
            ResolvedDistRef::InstallableRegistryBuiltDist { prioritized, .. } => {
                let built = prioritized.built_dist.as_ref().unwrap();
                ResolvedDist::Installable(Dist::Built(built.clone()))
            },
            ResolvedDistRef::Installed(dist) => ResolvedDist::Installed(dist.clone()),
        }
    }
}

} // verus!
