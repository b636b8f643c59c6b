use vstd::prelude::*;

use crate::order::{first_difference, lex_lt};
use crate::range::{
    between_segments, complement_of, interval, lemma_interval, End, Range, Segment,
};
use crate::version::{
    key_lt, law_versions_are_totally_ordered, lemma_trim_zeros, local_lt, number_lt, trim_zeros,
    Edge, PreRelease, Version, VersionKey, VersionParts,
};

verus! {

/// The comparison that a version specifier makes.
#[derive(Clone, Copy, Debug, PartialEq, Eq, Structural, Hash)]
pub enum Operator {
    /// `== 1.2.3`
    Equal,
    /// `== 1.2.*`
    EqualStar,
    /// `=== 1.2.3`
    ExactEqual,
    /// `!= 1.2.3`
    NotEqual,
    /// `!= 1.2.*`
    NotEqualStar,
    /// `~= 1.2.3`
    TildeEqual,
    /// `< 1.2.3`
    LessThan,
    /// `<= 1.2.3`
    LessThanEqual,
    /// `> 1.2.3`
    GreaterThan,
    /// `>= 1.2.3`
    GreaterThanEqual,
}

/// A version specifier, such as `>=1.2.3`.
#[derive(Debug)]
pub struct VersionSpecifier {
    pub operator: Operator,
    pub version: Version,
}

/// What a [`VersionSpecifier`] holds.
pub struct SpecifierParts {
    pub operator: Operator,
    pub version: VersionParts,
}

impl View for VersionSpecifier {
    type V = SpecifierParts;

    open spec fn view(&self) -> SpecifierParts {
        SpecifierParts { operator: self.operator, version: self.version@ }
    }
}

impl Clone for VersionSpecifier {
    fn clone(&self) -> (copy: Self)
        ensures
            copy@ == self@,
    {
        VersionSpecifier { operator: self.operator, version: self.version.clone() }
    }
}

/// A range of versions that can be used to satisfy a requirement.
pub struct PubGrubSpecifier {
    range: Range,
}

/// The specifier is `~=` on a version whose release has a single number.
#[derive(Debug)]
pub struct InvalidTildeEquals {
    pub specifier: VersionSpecifier,
}

/// `release` with its number at `i` raised by one, and nothing after it.
pub open spec fn bump_release(release: Seq<u64>, i: int) -> Seq<u64> {
    release.take(i).push((release[i] + 1) as u64)
}

impl VersionParts {
    /// The lowest version with the same release.
    pub open spec fn lowest(self) -> VersionParts {
        VersionParts { edge: Edge::Lowest, ..self }
    }

    /// The highest version with the same release and pre-release.
    pub open spec fn highest(self) -> VersionParts {
        VersionParts { edge: Edge::Highest, ..self }
    }

    /// The first development version.
    pub open spec fn first_dev(self) -> VersionParts {
        VersionParts { dev: Some(0u64), ..self }
    }

    /// The first version that no longer starts with this one, read as a prefix: its last part,
    /// be it the post-release, the pre-release or the release, raised by one.
    pub open spec fn after_prefix(self) -> VersionParts {
        if let Some(post) = self.post {
            VersionParts { post: Some((post + 1) as u64), ..self }
        } else if let Some(pre) = self.pre {
            VersionParts {
                pre: Some(PreRelease { kind: pre.kind, number: (pre.number + 1) as u64 }),
                ..self
            }
        } else {
            VersionParts {
                release: bump_release(self.release, self.release.len() - 1),
                ..self
            }
        }
    }

    /// The first version that is no longer compatible with this one: the next to last release
    /// number raised by one, in its first development version.
    pub open spec fn after_compatible(self) -> VersionParts {
        VersionParts {
            epoch: self.epoch,
            release: bump_release(self.release, self.release.len() - 2),
            pre: None,
            post: None,
            dev: Some(0u64),
            local: Seq::empty(),
            edge: Edge::Within,
        }
    }

    /// Whether [`VersionParts::after_prefix`] does not overflow.
    pub open spec fn prefix_has_successor(self) -> bool {
        if let Some(post) = self.post {
            post < u64::MAX
        } else if let Some(pre) = self.pre {
            pre.number < u64::MAX
        } else {
            self.release.last() < u64::MAX
        }
    }
}

impl SpecifierParts {
    /// Whether this is a specifier as PEP 440 knows it: its version is one that can be written,
    /// and not an edge of a release.
    pub open spec fn valid(self) -> bool {
        &&& self.version.valid()
        &&& self.version.edge is Within
    }

    /// Whether the numbers that the conversion to a range raises by one can be raised.
    pub open spec fn convertible(self) -> bool {
        let version = self.version;
        match self.operator {
            Operator::TildeEqual => version.release.len() >= 2 ==> version.release[version.release.len()
                - 2] < u64::MAX,
            Operator::GreaterThan => if let Some(dev) = version.dev {
                dev < u64::MAX
            } else if let Some(post) = version.post {
                post < u64::MAX
            } else {
                true
            },
            Operator::EqualStar | Operator::NotEqualStar => version.prefix_has_successor(),
            _ => true,
        }
    }

    /// Whether this is `~=` on a release of a single number, which says nothing to be compatible
    /// with.
    pub open spec fn is_invalid_tilde(self) -> bool {
        self.operator is TildeEqual && self.version.release.len() < 2
    }

    /// Whether the version at `key` satisfies the specifier.
    pub open spec fn accepts(self, key: VersionKey) -> bool {
        let version = self.version;
        match self.operator {
            Operator::Equal | Operator::ExactEqual => key == version.key(),
            Operator::NotEqual => key != version.key(),
            Operator::TildeEqual => !key_lt(key, version.key()) && key_lt(
                key,
                version.after_compatible().key(),
            ),
            Operator::LessThan => if version.any_prerelease() {
                key_lt(key, version.key())
            } else {
                key_lt(key, version.lowest().key())
            },
            Operator::LessThanEqual => !key_lt(version.key(), key),
            Operator::GreaterThan => if let Some(dev) = version.dev {
                !key_lt(key, VersionParts { dev: Some((dev + 1) as u64), ..version }.key())
            } else if let Some(post) = version.post {
                !key_lt(key, VersionParts { post: Some((post + 1) as u64), ..version }.key())
            } else {
                key_lt(version.highest().key(), key)
            },
            Operator::GreaterThanEqual => !key_lt(key, version.key()),
            Operator::EqualStar => self.accepts_prefix(key),
            Operator::NotEqualStar => !self.accepts_prefix(key),
        }
    }

    /// The intervals of the versions that satisfy the specifier.
    pub open spec fn segments(self) -> Seq<Segment> {
        let version = self.version;
        match self.operator {
            Operator::Equal | Operator::ExactEqual => interval(
                End::Included(version),
                End::Included(version),
            ),
            Operator::NotEqual => complement_of(
                interval(End::Included(version), End::Included(version)),
            ),
            Operator::TildeEqual => between_segments(version, version.after_compatible()),
            Operator::LessThan => interval(
                End::Unbounded,
                End::Excluded(
                    if version.any_prerelease() {
                        version
                    } else {
                        version.lowest()
                    },
                ),
            ),
            Operator::LessThanEqual => interval(End::Unbounded, End::Included(version)),
            Operator::GreaterThan => interval(
                if let Some(dev) = version.dev {
                    End::Included(VersionParts { dev: Some((dev + 1) as u64), ..version })
                } else if let Some(post) = version.post {
                    End::Included(VersionParts { post: Some((post + 1) as u64), ..version })
                } else {
                    End::Excluded(version.highest())
                },
                End::Unbounded,
            ),
            Operator::GreaterThanEqual => interval(End::Included(version), End::Unbounded),
            Operator::EqualStar => self.prefix_segments(),
            Operator::NotEqualStar => complement_of(self.prefix_segments()),
        }
    }

    /// The intervals of the versions that start with the version of the specifier.
    pub open spec fn prefix_segments(self) -> Seq<Segment> {
        let low = self.version.first_dev();
        between_segments(low, low.after_prefix())
    }

    /// Whether the version at `key` starts with the version of the specifier.
    pub open spec fn accepts_prefix(self, key: VersionKey) -> bool {
        let low = self.version.first_dev();
        !key_lt(key, low.key()) && key_lt(key, low.after_prefix().key())
    }
}

/// The first version that no longer starts with `version`, read as a prefix.
fn after_prefix(version: &Version) -> (high: Version)
    requires
        version@.release.len() > 0,
        version@.prefix_has_successor(),
    ensures
        high@ == version@.after_prefix(),
{
    let mut high = version.clone();
    if let Some(post) = high.post {
        high.post = Some(post + 1);
    } else if let Some(pre) = high.pre {
        high.pre = Some(PreRelease { kind: pre.kind, number: pre.number + 1 });
    } else {
        let last: usize = high.release.len() - 1;
        let number: u64 = high.release[last];
        high.release.set(last, number + 1);
        proof {
            assert(high.release@ =~= bump_release(version@.release, last as int));
        }
    }
    high
}

/// The first version that is no longer compatible with `version`.
fn after_compatible(version: &Version) -> (upper: Version)
    requires
        version@.release.len() >= 2,
        version@.release[version@.release.len() - 2] < u64::MAX,
    ensures
        upper@ == version@.after_compatible(),
{
    let last: usize = version.release.len() - 2;
    let mut release: Vec<u64> = Vec::new();
    for i in 0..last
        invariant
            last < version.release@.len(),
            release@ == version.release@.take(i as int),
    {
        release.push(version.release[i]);
        assert(release@ =~= version.release@.take(i + 1));
    }
    release.push(version.release[last] + 1);
    let upper = Version {
        epoch: version.epoch,
        release,
        pre: None,
        post: None,
        dev: Some(0),
        local: Vec::new(),
        edge: Edge::Within,
    };
    assert(upper@.local =~= Seq::empty());
    upper
}

/// The versions that start with the version of a specifier.
fn prefix_range(specifier: &VersionSpecifier) -> (range: Range)
    requires
        specifier@.valid(),
        specifier@.version.prefix_has_successor(),
    ensures
        range@ == specifier@.prefix_segments(),
        forall|key: VersionKey| #[trigger] range.has(key) == specifier@.accepts_prefix(key),
{
    let mut low = specifier.version.clone();
    low.dev = Some(0);
    let high = after_prefix(&low);
    let range = Range::between(&low, &high);
    proof {
        lemma_between(range, low@, high@);
    }
    range
}

/// A range between two versions holds those from the first on that come before the second.
proof fn lemma_between(range: Range, low: VersionParts, high: VersionParts)
    requires
        range@ == between_segments(low, high),
    ensures
        forall|key: VersionKey|
            #[trigger] range.has(key) == (!key_lt(key, low.key()) && key_lt(key, high.key())),
{
    law_versions_are_totally_ordered();
    let lt = |a: VersionKey, b: VersionKey| key_lt(a, b);
    assert forall|key: VersionKey| #[trigger]
        range.has(key) == (!key_lt(key, low.key()) && key_lt(key, high.key())) by {
        lemma_interval(End::Included(low), End::Excluded(high), key);
        assert(lt(low.key(), key) || key == low.key() || lt(key, low.key()));
        assert(lt(low.key(), key) && lt(key, high.key()) ==> lt(low.key(), high.key()));
    }
}

/// The range of a single version holds the versions equal to it.
proof fn lemma_singleton(range: Range, version: VersionParts)
    requires
        range@ == interval(End::Included(version), End::Included(version)),
    ensures
        forall|key: VersionKey| #[trigger] range.has(key) == (key == version.key()),
{
    law_versions_are_totally_ordered();
    let lt = |a: VersionKey, b: VersionKey| key_lt(a, b);
    assert forall|key: VersionKey| #[trigger] range.has(key) == (key == version.key()) by {
        lemma_interval(End::Included(version), End::Included(version), key);
        assert(!lt(key, key));
        assert(key != version.key() ==> lt(key, version.key()) || lt(version.key(), key));
    }
}

/// An interval that is open on one side holds the versions within its other end.
proof fn lemma_one_sided(range: Range, start: End, end: End)
    requires
        range@ == interval(start, end),
    ensures
        forall|key: VersionKey|
            #[trigger] range.has(key) == (start.starts_by(key) && end.ends_after(key)),
{
    assert forall|key: VersionKey| #[trigger]
        range.has(key) == (start.starts_by(key) && end.ends_after(key)) by {
        lemma_interval(start, end, key);
    }
}

impl PubGrubSpecifier {
    /// The range of the specifier.
    pub closed spec fn range(&self) -> Range {
        self.range
    }

    /// Convert a PEP 440 specifier to the range of the versions that satisfy it.
    pub fn try_from(specifier: &VersionSpecifier) -> (converted: Result<
        PubGrubSpecifier,
        InvalidTildeEquals,
    >)
        requires
            specifier@.valid(),
            specifier@.convertible(),
        ensures
            converted is Err <==> specifier@.is_invalid_tilde(),
            converted matches Ok(converted) ==> converted.range()@ == specifier@.segments(),
            converted matches Ok(converted) ==> forall|key: VersionKey| #[trigger]
                converted.range().has(key) == specifier@.accepts(key),
            converted matches Err(error) ==> error.specifier@ == specifier@,
    {
        let range = match specifier.operator {
            Operator::Equal | Operator::ExactEqual => {
                let range = Range::singleton(&specifier.version);
                proof {
                    lemma_singleton(range, specifier@.version);
                }
                range
            },
            Operator::NotEqual => {
                let range = Range::singleton(&specifier.version);
                proof {
                    lemma_singleton(range, specifier@.version);
                }
                range.complement()
            },
            Operator::TildeEqual => {
                if specifier.version.release.len() < 2 {
                    return Err(InvalidTildeEquals { specifier: specifier.clone() });
                }
                let upper = after_compatible(&specifier.version);
                let range = Range::between(&specifier.version, &upper);
                proof {
                    lemma_between(range, specifier@.version, upper@);
                }
                range
            },
            Operator::LessThan => {
                let mut version = specifier.version.clone();
                if !(version.pre.is_some() || version.dev.is_some()) {
                    // Per PEP 440: "The exclusive ordered comparison <V MUST NOT allow a
                    // pre-release of the specified version unless the specified version is itself
                    // a pre-release."
                    version.edge = Edge::Lowest;
                }
                let range = Range::strictly_lower_than(&version);
                proof {
                    lemma_one_sided(range, End::Unbounded, End::Excluded(version@));
                }
                range
            },
            Operator::LessThanEqual => {
                let range = Range::lower_than(&specifier.version);
                proof {
                    lemma_one_sided(range, End::Unbounded, End::Included(specifier@.version));
                }
                range
            },
            Operator::GreaterThan => {
                // Per PEP 440: "The exclusive ordered comparison >V MUST NOT allow a post-release
                // of the given version unless V itself is a post release."
                let mut version = specifier.version.clone();
                if let Some(dev) = version.dev {
                    version.dev = Some(dev + 1);
                    let range = Range::higher_than(&version);
                    proof {
                        lemma_one_sided(range, End::Included(version@), End::Unbounded);
                    }
                    range
                } else if let Some(post) = version.post {
                    version.post = Some(post + 1);
                    let range = Range::higher_than(&version);
                    proof {
                        lemma_one_sided(range, End::Included(version@), End::Unbounded);
                    }
                    range
                } else {
                    version.edge = Edge::Highest;
                    let range = Range::strictly_higher_than(&version);
                    proof {
                        lemma_one_sided(range, End::Excluded(version@), End::Unbounded);
                    }
                    range
                }
            },
            Operator::GreaterThanEqual => {
                let range = Range::higher_than(&specifier.version);
                proof {
                    lemma_one_sided(range, End::Included(specifier@.version), End::Unbounded);
                }
                range
            },
            Operator::EqualStar => prefix_range(specifier),
            Operator::NotEqualStar => prefix_range(specifier).complement(),
        };
        Ok(PubGrubSpecifier { range })
    }
}

/// `<V` admits no pre-release of `V`, unless `V` is a pre-release itself.
pub proof fn law_less_than_excludes_prereleases(version: VersionParts, other: VersionParts)
    requires
        version.valid(),
        version.edge is Within,
        !version.any_prerelease(),
        other.valid(),
        other.edge is Within,
        other.any_prerelease(),
        other.epoch == version.epoch,
        trim_zeros(other.release) == trim_zeros(version.release),
    ensures
        !(SpecifierParts { operator: Operator::LessThan, version }).accepts(other.key()),
{
}

/// `>V` admits no post-release of `V`, unless `V` is a post-release itself. Left out is the
/// post-release with the highest number there is, with a local label: it comes after every end
/// point that can be written.
pub proof fn law_greater_than_excludes_post_releases(version: VersionParts, other: VersionParts)
    requires
        version.valid(),
        version.edge is Within,
        version.post is None,
        version.dev is None,
        other.valid(),
        other.edge is Within,
        other.epoch == version.epoch,
        trim_zeros(other.release) == trim_zeros(version.release),
        other.pre == version.pre,
        other.post is Some,
        other.post->0 < u64::MAX || other.local.len() == 0,
    ensures
        !(SpecifierParts { operator: Operator::GreaterThan, version }).accepts(other.key()),
{
    assert(!lex_lt(version.local, other.local, local_lt()) || other.local.len() > 0);
}

/// `!=V` admits exactly the versions that `==V` does not, and `!=V.*` those that `==V.*` does not.
pub proof fn law_not_equal_is_the_complement_of_equal(version: VersionParts, key: VersionKey)
    ensures
        (SpecifierParts { operator: Operator::NotEqual, version }).accepts(key) == !(
        SpecifierParts { operator: Operator::Equal, version }).accepts(key),
        (SpecifierParts { operator: Operator::NotEqualStar, version }).accepts(key) == !(
        SpecifierParts { operator: Operator::EqualStar, version }).accepts(key),
{
}

/// The release of a version at position `i`, as if it went on with zeros.
pub open spec fn padded(release: Seq<u64>, i: int) -> u64 {
    if i < release.len() {
        release[i]
    } else {
        0
    }
}

/// Whether `release`, padded with zeros, starts with the numbers of `prefix`.
pub open spec fn release_starts_with(release: Seq<u64>, prefix: Seq<u64>) -> bool {
    forall|i: int| 0 <= i < prefix.len() ==> padded(release, i) == #[trigger] prefix[i]
}

/// No version of a release comes before its first development version.
proof fn lemma_first_dev_is_first(version: VersionParts, other: VersionParts)
    requires
        version.edge is Within,
        version.pre is None,
        version.post is None,
        version.dev == Some(0u64),
        version.local.len() == 0,
        other.edge is Within,
        other.epoch == version.epoch,
        trim_zeros(other.release) == trim_zeros(version.release),
    ensures
        !key_lt(other.key(), version.key()),
{
    assert(!lex_lt(other.local, version.local, local_lt()));
}

/// The lexicographic order does not place a sequence before one of its prefixes.
proof fn lemma_prefix_not_after(long: Seq<u64>, short: Seq<u64>)
    requires
        short.len() <= long.len(),
        forall|i: int| 0 <= i < short.len() ==> #[trigger] long[i] == short[i],
    ensures
        !lex_lt(long, short, number_lt()),
{
    if lex_lt(long, short, number_lt()) {
        let i = choose|i: int| first_difference(long, short, number_lt(), i);
        assert(long[i] == short[i]);
    }
}

/// `==V.*`, on a `V` without a pre-release or post-release number, admits exactly the versions of
/// the same epoch whose release starts with that of `V`.
pub proof fn law_equal_star_matches_the_release_prefix(version: VersionParts, other: VersionParts)
    requires
        version.valid(),
        version.edge is Within,
        version.pre is None,
        version.post is None,
        version.local.len() == 0,
        version.release.last() < u64::MAX,
        other.valid(),
        other.edge is Within,
    ensures
        (SpecifierParts { operator: Operator::EqualStar, version }).accepts(other.key()) <==> (
        other.epoch == version.epoch && release_starts_with(other.release, version.release)),
{
    let low = version.first_dev();
    let high = low.after_prefix();
    let n = version.release.len() as int;
    let a = trim_zeros(version.release);
    let b = trim_zeros(high.release);
    let c = trim_zeros(other.release);
    lemma_trim_zeros(version.release);
    lemma_trim_zeros(other.release);
    assert(high.release.len() == n && high.release.last() != 0);
    assert(b == high.release);
    law_versions_are_totally_ordered();
    let lt = |x: VersionKey, y: VersionKey| key_lt(x, y);
    assert(!(lt(other.key(), high.key()) && lt(high.key(), other.key()))) by {
        assert(!lt(other.key(), other.key()));
    }
    assert forall|i: int| 0 <= i implies padded(other.release, i) == #[trigger] padded(c, i) by {
        if c.len() <= i < other.release.len() {
            assert(other.release[i] == 0);
        } else if i < c.len() {
            assert(other.release.take(c.len() as int)[i] == other.release[i]);
        }
    }
    assert forall|i: int| 0 <= i < n implies version.release[i] == #[trigger] padded(a, i) by {
        if a.len() <= i {
            assert(version.release[i] == 0);
        } else {
            assert(version.release.take(a.len() as int)[i] == version.release[i]);
        }
    }
    if other.epoch == version.epoch {
        if release_starts_with(other.release, version.release) {
            lemma_matching_release(version, other, a, b, c);
        } else {
            let i = lemma_first_mismatch(c, version.release, 0);
            assert(padded(a, i) == version.release[i]);
            if padded(c, i) < version.release[i] {
                let k = if i < c.len() { i } else { c.len() as int };
                assert forall|j: int| 0 <= j < k implies #[trigger] c[j] == a[j] by {
                    assert(padded(c, j) == version.release[j]);
                    assert(padded(a, j) == version.release[j]);
                    assert(padded(a, i) != 0);
                }
                assert(first_difference(c, a, number_lt(), k));
                assert(c != a) by {
                    if c == a {
                        lemma_prefix_not_after(c, a);
                    }
                }
                assert(key_lt(other.key(), low.key()));
            } else {
                assert(i < c.len());
                assert forall|j: int| 0 <= j < i implies #[trigger] b[j] == c[j] by {
                    assert(padded(c, j) == version.release[j]);
                }
                if b[i] < c[i] {
                    assert(first_difference(b, c, number_lt(), i));
                    assert(b != c);
                    assert(lt(high.key(), other.key()));
                } else {
                    assert(i == n - 1);
                    assert(b[i] == c[i]);
                    if b == c {
                        lemma_first_dev_is_first(high, other);
                    } else {
                        assert(c.len() > n) by {
                            if c.len() == n {
                                assert(b =~= c);
                            }
                        }
                        assert(first_difference(b, c, number_lt(), n));
                        assert(lt(high.key(), other.key()));
                    }
                }
            }
        }
    }
}

/// The first position at which `prefix` differs from `release`, padded with zeros.
proof fn lemma_first_mismatch(release: Seq<u64>, prefix: Seq<u64>, from: int) -> (i: int)
    requires
        !release_starts_with(release, prefix),
        0 <= from <= prefix.len(),
        forall|j: int| 0 <= j < from ==> padded(release, j) == #[trigger] prefix[j],
    ensures
        0 <= i < prefix.len(),
        padded(release, i) != prefix[i],
        forall|j: int| 0 <= j < i ==> padded(release, j) == #[trigger] prefix[j],
    decreases prefix.len() - from,
{
    if padded(release, from) != prefix[from] && from < prefix.len() {
        from
    } else {
        assert(from < prefix.len());
        lemma_first_mismatch(release, prefix, from + 1)
    }
}

/// A version whose release starts with that of `version` lies in the range of the prefix.
proof fn lemma_matching_release(
    version: VersionParts,
    other: VersionParts,
    a: Seq<u64>,
    b: Seq<u64>,
    c: Seq<u64>,
)
    requires
        version.release.len() > 0,
        version.release.last() < u64::MAX,
        version.edge is Within,
        version.pre is None,
        version.post is None,
        version.local.len() == 0,
        other.edge is Within,
        other.epoch == version.epoch,
        a == trim_zeros(version.release),
        a.len() <= version.release.len(),
        a.len() > 0 ==> a.last() != 0,
        b == trim_zeros(version.first_dev().after_prefix().release),
        b == version.first_dev().after_prefix().release,
        c == trim_zeros(other.release),
        forall|i: int| 0 <= i ==> padded(other.release, i) == #[trigger] padded(c, i),
        forall|i: int|
            0 <= i < version.release.len() ==> version.release[i] == #[trigger] padded(a, i),
        release_starts_with(other.release, version.release),
    ensures
        !key_lt(other.key(), version.first_dev().key()),
        key_lt(other.key(), version.first_dev().after_prefix().key()),
{
    let n = version.release.len() as int;
    assert forall|i: int| 0 <= i < n implies #[trigger] padded(c, i) == padded(a, i) by {
        assert(padded(other.release, i) == version.release[i]);
    }
    if a.len() > 0 {
        assert(padded(c, a.len() - 1) == padded(a, a.len() - 1));
    }
    assert(a.len() <= c.len());
    assert forall|i: int| 0 <= i < a.len() implies #[trigger] c[i] == a[i] by {
        assert(padded(c, i) == padded(a, i));
    }
    lemma_prefix_not_after(c, a);
    if c == a {
        lemma_first_dev_is_first(version.first_dev(), other);
    }
    let k = if c.len() < n { c.len() as int } else { n - 1 };
    assert forall|j: int| 0 <= j < k implies #[trigger] c[j] == b[j] by {
        assert(padded(c, j) == padded(a, j));
        assert(b[j] == version.release[j]);
    }
    assert(padded(c, n - 1) == version.release[n - 1]) by {
        assert(padded(c, n - 1) == padded(a, n - 1));
    }
    assert(first_difference(c, b, number_lt(), k));
    assert(c != b);
}

/// `~=V.N` admits exactly the versions that `>=V.N` and `==V.*` both admit.
pub proof fn law_compatible_release(version: VersionParts, key: VersionKey)
    requires
        version.valid(),
        version.edge is Within,
        version.release.len() >= 2,
        version.release[version.release.len() - 2] < u64::MAX,
    ensures
        ({
            let prefix = VersionParts {
                release: version.release.drop_last(),
                pre: None,
                post: None,
                dev: None,
                local: Seq::empty(),
                ..version
            };
            (SpecifierParts { operator: Operator::TildeEqual, version }).accepts(key) <==> (
            SpecifierParts { operator: Operator::GreaterThanEqual, version }).accepts(key) && (
            SpecifierParts { operator: Operator::EqualStar, version: prefix }).accepts(key)
        }),
{
    let prefix = VersionParts {
        release: version.release.drop_last(),
        pre: None,
        post: None,
        dev: None,
        local: Seq::empty(),
        ..version
    };
    let low = prefix.first_dev();
    let n = version.release.len() as int;
    assert(bump_release(prefix.release, n - 2) =~= bump_release(version.release, n - 2));
    assert(low.after_prefix() == version.after_compatible());
    let a = trim_zeros(version.release);
    let b = trim_zeros(prefix.release);
    lemma_trim_zeros(version.release);
    lemma_trim_zeros(prefix.release);
    assert forall|i: int| 0 <= i < b.len() implies #[trigger] b[i] == version.release[i] by {
        assert(prefix.release.take(b.len() as int)[i] == version.release[i]);
    }
    assert(b.len() <= a.len()) by {
        if a.len() < b.len() {
            assert(version.release[b.len() - 1] == 0);
            assert(b[b.len() - 1] == version.release[b.len() - 1]);
        }
    }
    assert forall|i: int| 0 <= i < b.len() implies #[trigger] a[i] == b[i] by {
        assert(version.release.take(a.len() as int)[i] == version.release[i]);
    }
    lemma_prefix_not_after(a, b);
    if a == b {
        lemma_first_dev_is_first(low, version);
    }
    assert(!key_lt(version.key(), low.key()));
    law_versions_are_totally_ordered();
    let lt = |x: VersionKey, y: VersionKey| key_lt(x, y);
    if lt(key, low.key()) {
        assert(lt(low.key(), version.key()) || low.key() == version.key());
        assert(lt(key, version.key()));
    }
}

impl From<PubGrubSpecifier> for Range {
    /// Convert a specifier to its range of versions.
    fn from(specifier: PubGrubSpecifier) -> (range: Range) {
        specifier.range
    }
}

impl vstd::std_specs::convert::FromSpecImpl<PubGrubSpecifier> for Range {
    open spec fn obeys_from_spec() -> bool {
        true
    }

    open spec fn from_spec(specifier: PubGrubSpecifier) -> Range {
        specifier.range()
    }
}

} // verus!
