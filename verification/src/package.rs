use vstd::prelude::*;

use crate::collections::{option_key, option_same, Keyed};

verus! {

/// A normalized package name.
pub type PackageName = String;

/// A normalized name of an extra.
pub type ExtraName = String;

/// A marker expression in normal form: two markers are the same exactly if their texts are.
pub type Marker = String;

/// A URL as the user wrote it: two URLs are the same exactly if their texts are.
pub type Url = String;

/// The Python version that a requirement on Python speaks of.
#[derive(Clone, Copy, Debug, PartialEq, Eq, Structural, Hash)]
pub enum PubGrubPython {
    /// The Python version installed in the current environment.
    Installed,
    /// The Python version for which dependencies are being resolved.
    Target,
}

/// A package as the solver sees it.
#[derive(Debug)]
#[allow(inconsistent_fields)]
pub enum PubGrubPackage {
    /// The root package, which is used to start version resolution.
    Root(Option<PackageName>),
    /// A Python version.
    Python(PubGrubPython),
    /// A package with an extra, which stands for a dependency on the base package and on the base
    /// package with the extra.
    Extra {
        name: PackageName,
        extra: ExtraName,
        marker: Option<Marker>,
        url: Option<Url>,
    },
    /// A Python package.
    Package {
        name: PackageName,
        extra: Option<ExtraName>,
        marker: Option<Marker>,
        url: Option<Url>,
    },
}

/// What a [`PubGrubPackage`] holds. Two packages are the same exactly if they hold the same.
#[allow(inconsistent_fields)]
pub enum PackageView {
    Root(Option<Seq<char>>),
    Python(PubGrubPython),
    Extra {
        name: Seq<char>,
        extra: Seq<char>,
        marker: Option<Seq<char>>,
        url: Option<Seq<char>>,
    },
    Package {
        name: Seq<char>,
        extra: Option<Seq<char>>,
        marker: Option<Seq<char>>,
        url: Option<Seq<char>>,
    },
}

impl PackageView {
    /// The name of a package that can be depended on.
    pub open spec fn name(self) -> Option<Seq<char>> {
        match self {
            PackageView::Extra { name, .. } => Some(name),
            PackageView::Package { name, .. } => Some(name),
            _ => None,
        }
    }

    /// The URL of a package that is given by one.
    pub open spec fn url(self) -> Option<Seq<char>> {
        match self {
            PackageView::Extra { url, .. } => url,
            PackageView::Package { url, .. } => url,
            _ => None,
        }
    }
}

impl View for PubGrubPackage {
    type V = PackageView;

    open spec fn view(&self) -> PackageView {
        match self {
            PubGrubPackage::Root(name) => PackageView::Root(option_key(*name)),
            PubGrubPackage::Python(python) => PackageView::Python(*python),
            PubGrubPackage::Extra { name, extra, marker, url } => PackageView::Extra {
                name: name@,
                extra: extra@,
                marker: option_key(*marker),
                url: option_key(*url),
            },
            PubGrubPackage::Package { name, extra, marker, url } => PackageView::Package {
                name: name@,
                extra: option_key(*extra),
                marker: option_key(*marker),
                url: option_key(*url),
            },
        }
    }
}

/// A copy of an optional text.
pub fn copy_text(text: &Option<String>) -> (copy: Option<String>)
    ensures
        copy == *text,
{
    match text {
        Some(text) => Some(text.clone()),
        None => None,
    }
}

impl Clone for PubGrubPackage {
    fn clone(&self) -> (copy: Self)
        ensures
            copy == *self,
    {
        match self {
            PubGrubPackage::Root(name) => PubGrubPackage::Root(copy_text(name)),
            PubGrubPackage::Python(python) => PubGrubPackage::Python(*python),
            PubGrubPackage::Extra { name, extra, marker, url } => PubGrubPackage::Extra {
                name: name.clone(),
                extra: extra.clone(),
                marker: copy_text(marker),
                url: copy_text(url),
            },
            PubGrubPackage::Package { name, extra, marker, url } => PubGrubPackage::Package {
                name: name.clone(),
                extra: copy_text(extra),
                marker: copy_text(marker),
                url: copy_text(url),
            },
        }
    }
}

impl Keyed for PubGrubPackage {
    type Key = PackageView;
    type Form = PackageView;

    open spec fn key(&self) -> PackageView {
        self@
    }

    open spec fn form(&self) -> PackageView {
        self@
    }

    open spec fn comparable(&self) -> bool {
        true
    }

    fn same(&self, other: &Self) -> (equal: bool) {
        match (self, other) {
            (PubGrubPackage::Root(left), PubGrubPackage::Root(right)) => option_same(left, right),
            (PubGrubPackage::Python(left), PubGrubPackage::Python(right)) => *left == *right,
            (
                PubGrubPackage::Extra { name: n1, extra: e1, marker: m1, url: u1 },
                PubGrubPackage::Extra { name: n2, extra: e2, marker: m2, url: u2 },
            ) => n1.same(n2) && e1.same(e2) && option_same(m1, m2) && option_same(u1, u2),
            (
                PubGrubPackage::Package { name: n1, extra: e1, marker: m1, url: u1 },
                PubGrubPackage::Package { name: n2, extra: e2, marker: m2, url: u2 },
            ) => n1.same(n2) && option_same(e1, e2) && option_same(m1, m2) && option_same(u1, u2),
            _ => false,
        }
    }

    fn duplicate(&self) -> (copy: Self) {
        self.clone()
    }
}

/// The packages that the solver knows of. Each has a number of its own, by which the solver knows
/// it.
pub struct PackageTable {
    packages: Vec<PubGrubPackage>,
}

impl View for PackageTable {
    type V = Seq<PackageView>;

    closed spec fn view(&self) -> Seq<PackageView> {
        self.packages@.map_values(|package: PubGrubPackage| package@)
    }
}

impl PackageTable {
    /// Every package has a number.
    pub proof fn lemma_len(&self)
        ensures
            self@.len() <= u64::MAX,
    {
        assert(self.packages.len() <= usize::MAX);
    }

    /// Whether no package is in the table twice.
    pub open spec fn wf(&self) -> bool {
        self@.no_duplicates()
    }

    /// The table with a single package, whose number is 0.
    pub fn new(package: PubGrubPackage) -> (table: Self)
        ensures
            table.wf(),
            table@ == seq![package@],
    {
        let mut packages: Vec<PubGrubPackage> = Vec::new();
        packages.push(package);
        let table = PackageTable { packages };
        assert(table@ =~= seq![package@]);
        table
    }

    /// The number of packages.
    pub fn len(&self) -> (length: usize)
        ensures
            length == self@.len(),
    {
        self.packages.len()
    }

    /// The package with the given number.
    pub fn get(&self, id: u64) -> (package: PubGrubPackage)
        requires
            id < self@.len(),
        ensures
            package@ == self@[id as int],
    {
        let length: usize = self.packages.len();
        assert(self@.len() == length);
        self.packages[id as usize].clone()
    }

    /// The number of a package, which enters the table if it is not in it yet.
    pub fn intern(&mut self, package: &PubGrubPackage) -> (id: u64)
        requires
            old(self).wf(),
        ensures
            final(self).wf(),
            id < final(self)@.len(),
            final(self)@[id as int] == package@,
            final(self)@ == if old(self)@.contains(package@) {
                old(self)@
            } else {
                old(self)@.push(package@)
            },
    {
        for i in 0..self.packages.len()
            invariant
                *self == *old(self),
                self.wf(),
                forall|j: int| 0 <= j < i ==> #[trigger] self@[j] != package@,
        {
            assert(self@[i as int] == self.packages@[i as int]@);
            if self.packages[i].same(package) {
                return i as u64;
            }
        }
        let ghost before = self@;
        let id: usize = self.packages.len();
        self.packages.push(package.clone());
        assert(self@ =~= before.push(package@));
        id as u64
    }

    /// A table with the same packages.
    pub fn duplicate(&self) -> (copy: Self)
        ensures
            copy@ == self@,
    {
        let packages = self.packages.clone();
        let copy = PackageTable { packages };
        assert(copy@ =~= self@);
        copy
    }
}

} // verus!
