use vstd::prelude::*;

use crate::order::{lemma_lex_order, lex_lt, strict_total_order};

verus! {

/// The kind of a pre-release: alpha, beta or release candidate.
#[derive(Clone, Copy, Debug, PartialEq, Eq, Structural, Hash)]
pub enum PreReleaseKind {
    Alpha,
    Beta,
    Rc,
}

/// A pre-release modifier, such as `rc1`.
#[derive(Clone, Copy, Debug, PartialEq, Eq, Structural, Hash)]
pub struct PreRelease {
    pub kind: PreReleaseKind,
    pub number: u64,
}

/// Where a version stands among the versions that share its release.
///
/// `Lowest` and `Highest` do not exist in PEP 440. They mark the end points of ranges: `Lowest`
/// precedes every version with the same release, `Highest` follows all of them.
#[derive(Clone, Copy, Debug, PartialEq, Eq, Structural, Hash)]
pub enum Edge {
    Within,
    Lowest,
    Highest,
}

/// A segment of a local version label, such as `ubuntu` and `1` in `1.0+ubuntu.1`.
#[derive(Debug)]
pub enum LocalSegment {
    Text(String),
    Number(u64),
}

/// A PEP 440 version, such as `4!5.6.7a8.post9.dev0`.
#[derive(Debug)]
pub struct Version {
    pub epoch: u64,
    pub release: Vec<u64>,
    pub pre: Option<PreRelease>,
    pub post: Option<u64>,
    pub dev: Option<u64>,
    pub local: Vec<LocalSegment>,
    pub edge: Edge,
}

/// What a [`LocalSegment`] holds.
pub enum LocalPart {
    Text(Seq<char>),
    Number(u64),
}

/// What a [`Version`] holds, as written.
#[verifier::ext_equal]
pub struct VersionParts {
    pub epoch: u64,
    pub release: Seq<u64>,
    pub pre: Option<PreRelease>,
    pub post: Option<u64>,
    pub dev: Option<u64>,
    pub local: Seq<LocalPart>,
    pub edge: Edge,
}

impl View for LocalSegment {
    type V = LocalPart;

    open spec fn view(&self) -> LocalPart {
        match self {
            LocalSegment::Text(text) => LocalPart::Text(text@),
            LocalSegment::Number(number) => LocalPart::Number(*number),
        }
    }
}

impl View for Version {
    type V = VersionParts;

    open spec fn view(&self) -> VersionParts {
        VersionParts {
            epoch: self.epoch,
            release: self.release@,
            pre: self.pre,
            post: self.post,
            dev: self.dev,
            local: self.local@.map_values(|segment: LocalSegment| segment@),
            edge: self.edge,
        }
    }
}

impl Clone for LocalSegment {
    fn clone(&self) -> (copy: Self)
        ensures
            copy@ == self@,
    {
        match self {
            LocalSegment::Text(text) => LocalSegment::Text(text.clone()),
            LocalSegment::Number(number) => LocalSegment::Number(*number),
        }
    }
}

impl Clone for Version {
    fn clone(&self) -> (copy: Self)
        ensures
            copy@ == self@,
    {
        let local = self.local.clone();
        let copy = Version {
            epoch: self.epoch,
            release: self.release.clone(),
            pre: self.pre,
            post: self.post,
            dev: self.dev,
            local,
            edge: self.edge,
        };
        proof {
            assert(copy@.release =~= self@.release);
            assert(copy@.local =~= self@.local);
        }
        copy
    }
}

/// The position of a version in the PEP 440 order. Two versions are equal exactly if their keys are.
#[verifier::ext_equal]
pub struct VersionKey {
    pub epoch: u64,
    /// The release numbers without trailing zeros: `1.0` and `1.0.0` are the same release.
    pub release: Seq<u64>,
    /// 0 for the lowest version of the release, then 1 for `.dev`, 2 for `a`, 3 for `b`, 4 for
    /// `rc`, 5 for the final release and 6 for `.post`.
    pub phase: int,
    pub pre: u64,
    pub post: Option<u64>,
    pub dev: u64,
    pub local: Seq<LocalPart>,
}

/// `release` without its trailing zeros.
pub open spec fn trim_zeros(release: Seq<u64>) -> Seq<u64>
    decreases release.len(),
{
    if release.len() > 0 && release.last() == 0 {
        trim_zeros(release.drop_last())
    } else {
        release
    }
}

impl VersionParts {
    /// Whether this is a version that can be written: it has a release, and a version at an edge
    /// has none of the suffixes that the edge passes over.
    pub open spec fn valid(self) -> bool {
        &&& self.release.len() > 0
        &&& self.edge is Lowest ==> self.pre is None && self.dev is None
        &&& self.edge is Highest ==> self.post is None && self.dev is None
    }

    /// Whether this is an alpha, beta, release candidate or development version.
    pub open spec fn any_prerelease(self) -> bool {
        self.pre is Some || self.dev is Some
    }

    /// The position of this version in the order of versions.
    pub open spec fn key(self) -> VersionKey {
        let post = if self.edge is Highest {
            Some(u64::MAX)
        } else {
            self.post
        };
        let dev = match self.dev {
            Some(number) => number,
            None => u64::MAX,
        };
        let (phase, pre, post, dev) = if self.edge is Lowest {
            (0int, 0u64, post, 0u64)
        } else if let Some(pre) = self.pre {
            let phase = match pre.kind {
                PreReleaseKind::Alpha => 2int,
                PreReleaseKind::Beta => 3int,
                PreReleaseKind::Rc => 4int,
            };
            (phase, pre.number, post, dev)
        } else if post is Some {
            (6int, 0u64, post, dev)
        } else if self.dev is Some {
            (1int, 0u64, None, dev)
        } else {
            (5int, 0u64, None, 0u64)
        };
        VersionKey {
            epoch: self.epoch,
            release: trim_zeros(self.release),
            phase,
            pre,
            post,
            dev,
            local: self.local,
        }
    }
}

impl Version {
    /// Whether this is a version that can be written.
    pub fn is_valid(&self) -> (answer: bool)
        ensures
            answer == self@.valid(),
    {
        let suffixes = match self.edge {
            Edge::Within => true,
            Edge::Lowest => self.pre.is_none() && self.dev.is_none(),
            Edge::Highest => self.post.is_none() && self.dev.is_none(),
        };
        self.release.len() > 0 && suffixes
    }
}

/// Trimming keeps the numbers up to the last one that is not zero.
pub proof fn lemma_trim_zeros(release: Seq<u64>)
    ensures
        trim_zeros(release).len() <= release.len(),
        trim_zeros(release) == release.take(trim_zeros(release).len() as int),
        forall|i: int| trim_zeros(release).len() <= i < release.len() ==> #[trigger] release[i] == 0,
        trim_zeros(release).len() > 0 ==> trim_zeros(release).last() != 0,
    decreases release.len(),
{
    if release.len() > 0 && release.last() == 0 {
        let shorter = release.drop_last();
        lemma_trim_zeros(shorter);
        assert forall|i: int| trim_zeros(release).len() <= i < release.len() implies #[trigger]
            release[i] == 0 by {
            if i < shorter.len() {
                assert(shorter[i] == release[i]);
            }
        }
    }
}

/// Numbers in their usual order.
pub open spec fn number_lt() -> spec_fn(u64, u64) -> bool {
    |a: u64, b: u64| a < b
}

/// Characters by code point.
pub open spec fn char_lt() -> spec_fn(char, char) -> bool {
    |a: char, b: char| a < b
}

/// The order of local segments: text by its characters, then numbers.
pub open spec fn local_lt() -> spec_fn(LocalPart, LocalPart) -> bool {
    |a: LocalPart, b: LocalPart|
        match (a, b) {
            (LocalPart::Text(s), LocalPart::Text(t)) => lex_lt(s, t, char_lt()),
            (LocalPart::Text(_), LocalPart::Number(_)) => true,
            (LocalPart::Number(_), LocalPart::Text(_)) => false,
            (LocalPart::Number(m), LocalPart::Number(n)) => m < n,
        }
}

/// Whether the version at `a` comes before the version at `b`: the first component in which they
/// differ decides.
pub open spec fn key_lt(a: VersionKey, b: VersionKey) -> bool {
    if a.epoch != b.epoch {
        a.epoch < b.epoch
    } else if a.release != b.release {
        lex_lt(a.release, b.release, number_lt())
    } else if a.phase != b.phase {
        a.phase < b.phase
    } else if a.pre != b.pre {
        a.pre < b.pre
    } else if a.post != b.post {
        a.post is None || (b.post is Some && a.post->0 < b.post->0)
    } else if a.dev != b.dev {
        a.dev < b.dev
    } else {
        lex_lt(a.local, b.local, local_lt())
    }
}

/// The versions stand in a strict total order: no version precedes itself, the order is
/// transitive, and of two versions with different keys one precedes the other.
pub proof fn law_versions_are_totally_ordered()
    ensures
        strict_total_order(|a: VersionKey, b: VersionKey| key_lt(a, b)),
{
    let lt = |a: VersionKey, b: VersionKey| key_lt(a, b);
    lemma_lex_order(number_lt());
    lemma_lex_order(char_lt());
    let text = |a: Seq<char>, b: Seq<char>| lex_lt(a, b, char_lt());
    assert(strict_total_order(local_lt())) by {
        assert forall|a: LocalPart| !#[trigger] local_lt()(a, a) by {
            if let LocalPart::Text(s) = a {
                assert(!text(s, s));
            }
        }
        assert forall|a: LocalPart, b: LocalPart, c: LocalPart| #[trigger]
            local_lt()(a, b) && #[trigger] local_lt()(b, c) implies local_lt()(a, c) by {
            match (a, b, c) {
                (LocalPart::Text(r), LocalPart::Text(s), LocalPart::Text(t)) => {
                    assert(text(r, s) && text(s, t));
                },
                _ => {},
            }
        }
        assert forall|a: LocalPart, b: LocalPart| a != b implies #[trigger] local_lt()(a, b)
            || local_lt()(b, a) by {
            match (a, b) {
                (LocalPart::Text(s), LocalPart::Text(t)) => {
                    assert(text(s, t) || text(t, s));
                },
                _ => {},
            }
        }
    }
    lemma_lex_order(local_lt());
    let release = |a: Seq<u64>, b: Seq<u64>| lex_lt(a, b, number_lt());
    let local = |a: Seq<LocalPart>, b: Seq<LocalPart>| lex_lt(a, b, local_lt());
    assert forall|a: VersionKey| !#[trigger] lt(a, a) by {
        assert(!local(a.local, a.local));
    }
    assert forall|a: VersionKey, b: VersionKey, c: VersionKey| #[trigger] lt(a, b) && #[trigger]
        lt(b, c) implies lt(a, c) by {
        assert(release(a.release, b.release) && release(b.release, c.release) ==> release(
            a.release,
            c.release,
        ));
        assert(!release(a.release, a.release));
        assert(local(a.local, b.local) && local(b.local, c.local) ==> local(a.local, c.local));
    }
    assert forall|a: VersionKey, b: VersionKey| a != b implies #[trigger] lt(a, b) || lt(
        b,
        a,
    ) by {
        assert(a.release != b.release ==> release(a.release, b.release) || release(
            b.release,
            a.release,
        ));
        if a.epoch == b.epoch && a.release == b.release && a.phase == b.phase && a.pre == b.pre
            && a.post == b.post && a.dev == b.dev {
            assert(a.local != b.local);
            assert(local(a.local, b.local) || local(b.local, a.local));
        }
    }
}

} // verus!
