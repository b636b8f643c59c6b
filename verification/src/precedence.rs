use vstd::prelude::*;

use crate::order::{first_difference, lex_lt};
use crate::version::{
    char_lt, key_lt, lemma_trim_zeros, local_lt, number_lt, trim_zeros, LocalPart, PreRelease,
    PreReleaseKind, VersionParts,
};

verus! {

/// Whether one version precedes another.
pub open spec fn precedes(one: VersionParts, other: VersionParts) -> bool {
    key_lt(one.key(), other.key())
}

/// The release number at a position, which is zero where none is written.
pub open spec fn release_number(version: VersionParts, i: int) -> u64 {
    if 0 <= i < version.release.len() {
        version.release[i]
    } else {
        0
    }
}

/// Whether both versions are of the same epoch and release.
pub open spec fn of_one_release(one: VersionParts, other: VersionParts) -> bool {
    &&& one.epoch == other.epoch
    &&& forall|i: int| #[trigger] release_number(one, i) == release_number(other, i)
}

/// Releases that differ in trailing zeros at most are one release.
proof fn lemma_one_release(one: VersionParts, other: VersionParts)
    requires
        of_one_release(one, other),
    ensures
        one.key().epoch == other.key().epoch,
        one.key().release == other.key().release,
{
    lemma_trim_zeros(one.release);
    lemma_trim_zeros(other.release);
    let left = trim_zeros(one.release);
    let right = trim_zeros(other.release);
    if left.len() < right.len() {
        let last = right.len() - 1;
        assert(right[last] == other.release[last]);
        assert(release_number(one, last) == release_number(other, last));
    } else if right.len() < left.len() {
        let last = left.len() - 1;
        assert(left[last] == one.release[last]);
        assert(release_number(one, last) == release_number(other, last));
    }
    assert forall|i: int| 0 <= i < left.len() implies left[i] == right[i] by {
        assert(release_number(one, i) == release_number(other, i));
    }
    assert(left =~= right);
}

/// The lower epoch comes first, whatever else the versions hold.
pub proof fn law_epochs_come_first(one: VersionParts, other: VersionParts)
    requires
        one.epoch < other.epoch,
    ensures
        precedes(one, other),
{
}

/// Within an epoch, the first release number that differs decides, and a number that is not
/// written is zero.
pub proof fn law_releases_come_next(one: VersionParts, other: VersionParts, i: int)
    requires
        one.epoch == other.epoch,
        0 <= i,
        release_number(one, i) < release_number(other, i),
        forall|j: int| 0 <= j < i ==> #[trigger] release_number(one, j) == release_number(other, j),
    ensures
        precedes(one, other),
{
    lemma_trim_zeros(one.release);
    lemma_trim_zeros(other.release);
    let left = trim_zeros(one.release);
    let right = trim_zeros(other.release);
    assert(i < right.len());
    assert(right[i] == release_number(other, i));
    let at = if left.len() <= i { left.len() as int } else { i };
    assert forall|j: int| 0 <= j < at implies #[trigger] left[j] == right[j] by {
        assert(release_number(one, j) == release_number(other, j));
    }
    assert(first_difference(left, right, number_lt(), at));
    assert(lex_lt(left, right, number_lt()));
    if left == right {
        assert(left[i] == release_number(one, i));
    }
}

/// Trailing zeros of the release make no difference.
pub proof fn law_trailing_zeros_do_not_count(version: VersionParts)
    ensures
        (VersionParts { release: version.release.push(0), ..version }).key() == version.key(),
{
    assert(version.release.push(0).drop_last() =~= version.release);
}

/// Of one release, the development versions come first, then the alpha versions, the beta
/// versions, the release candidates, the release itself and its post-releases. Neither the numbers
/// nor the labels of those versions change that.
pub proof fn law_phases_of_a_release(one: VersionParts, other: VersionParts)
    requires
        of_one_release(one, other),
        one.edge is Within,
        other.edge is Within,
    ensures
        one.pre is None && one.post is None && one.dev is Some && !(other.pre is None
            && other.post is None && other.dev is Some) ==> precedes(one, other),
        one.pre matches Some(pre) ==> (pre.kind is Alpha && (other.pre matches Some(next)
            && !(next.kind is Alpha)) ==> precedes(one, other)),
        one.pre matches Some(pre) ==> (pre.kind is Beta && (other.pre matches Some(next)
            && next.kind is Rc) ==> precedes(one, other)),
        one.pre is Some && other.pre is None && (other.post is Some || other.dev is None)
            ==> precedes(one, other),
        one.pre is None && one.post is None && one.dev is None && other.pre is None
            && other.post is Some ==> precedes(one, other),
{
    lemma_one_release(one, other);
}

/// Pre-releases of a kind come by their numbers.
pub proof fn law_pre_releases_come_by_number(
    one: VersionParts,
    other: VersionParts,
    kind: PreReleaseKind,
    lower: u64,
    higher: u64,
)
    requires
        of_one_release(one, other),
        one.edge is Within,
        other.edge is Within,
        one.pre == Some(PreRelease { kind, number: lower }),
        other.pre == Some(PreRelease { kind, number: higher }),
        lower < higher,
    ensures
        precedes(one, other),
{
    lemma_one_release(one, other);
}

/// A version comes before its post-releases, and they come by their numbers.
pub proof fn law_post_releases_come_by_number(one: VersionParts, other: VersionParts)
    requires
        of_one_release(one, other),
        one.edge is Within,
        other.edge is Within,
        one.pre == other.pre,
    ensures
        one.post is None && other.post is Some ==> precedes(one, other),
        one.post matches Some(lower) ==> (other.post matches Some(higher) ==> (lower < higher
            ==> precedes(one, other))),
{
    lemma_one_release(one, other);
}

/// The development versions of a version come before it, by their numbers.
pub proof fn law_development_versions_come_by_number(one: VersionParts, other: VersionParts)
    requires
        of_one_release(one, other),
        one.edge is Within,
        other.edge is Within,
        one.pre == other.pre,
        one.post == other.post,
    ensures
        one.dev matches Some(lower) ==> (other.dev is None && lower < u64::MAX ==> precedes(
            one,
            other,
        )),
        one.dev matches Some(lower) ==> (other.dev matches Some(higher) ==> (lower < higher
            ==> precedes(one, other))),
{
    lemma_one_release(one, other);
}

/// A version without a local label comes before those with one, a label before those that go on,
/// and of two segments that are numbers the lower comes first. A number follows a text.
pub proof fn law_local_labels_come_last(
    one: VersionParts,
    other: VersionParts,
    label: Seq<LocalPart>,
    left: Seq<LocalPart>,
    right: Seq<LocalPart>,
)
    requires
        of_one_release(one, other),
        one.edge == other.edge,
        one.pre == other.pre,
        one.post == other.post,
        one.dev == other.dev,
        one.local == label + left,
        other.local == label + right,
        right.len() > 0,
    ensures
        left.len() == 0 ==> precedes(one, other),
        left.len() > 0 ==> (left[0] matches LocalPart::Text(_) ==> (
        right[0] matches LocalPart::Number(_) ==> precedes(one, other))),
        left.len() > 0 ==> (left[0] matches LocalPart::Number(lower) ==> (
        right[0] matches LocalPart::Number(higher) ==> (lower < higher ==> precedes(one, other)))),
        left.len() > 0 ==> (left[0] matches LocalPart::Text(lower) ==> (
        right[0] matches LocalPart::Text(higher) ==> (lower.len() == 0 && higher.len() > 0
            || lower.len() > 0 && higher.len() > 0 && lower[0] < higher[0] ==> precedes(
            one,
            other,
        )))),
{
    lemma_one_release(one, other);
    let n = label.len() as int;
    if left.len() == 0 || local_lt()(left[0], right[0]) {
        assert forall|j: int| 0 <= j < n implies #[trigger] one.local[j] == other.local[j] by {}
        if left.len() > 0 {
            assert(one.local[n] == left[0]);
        }
        assert(other.local[n] == right[0]);
        assert(first_difference(one.local, other.local, local_lt(), n));
    }
    if left.len() > 0 {
        if let LocalPart::Text(lower) = left[0] {
            if let LocalPart::Text(higher) = right[0] {
                if lower.len() == 0 && higher.len() > 0 || lower.len() > 0 && higher.len() > 0
                    && lower[0] < higher[0] {
                    assert(first_difference(lower, higher, char_lt(), 0));
                }
            }
        }
    }
}

/// The lowest edge of a release comes before every version of the release.
pub proof fn law_the_lowest_edge_comes_first(one: VersionParts, other: VersionParts)
    requires
        of_one_release(one, other),
        one.edge is Lowest,
        other.edge is Within,
    ensures
        precedes(one, other),
{
    lemma_one_release(one, other);
}

/// The highest edge of a release comes after every version of the same pre-release, or of none,
/// whose post-release number is not the highest there is.
pub proof fn law_the_highest_edge_comes_last(one: VersionParts, other: VersionParts)
    requires
        of_one_release(one, other),
        one.edge is Within,
        other.edge is Highest,
        one.pre == other.pre,
        one.post != Some(u64::MAX),
    ensures
        precedes(one, other),
{
    lemma_one_release(one, other);
}

/// What can be written: a version with a release number, whose lowest edge carries neither a
/// pre-release nor a development version, and whose highest edge carries neither a post-release nor
/// a development version. A pre-release or a development version counts as a pre-release.
pub proof fn law_what_a_version_can_hold(version: VersionParts)
    ensures
        version.edge is Within ==> (version.valid() <==> version.release.len() > 0),
        version.edge is Lowest ==> (version.valid() <==> version.release.len() > 0
            && version.pre is None && version.dev is None),
        version.edge is Highest ==> (version.valid() <==> version.release.len() > 0
            && version.post is None && version.dev is None),
        version.any_prerelease() <==> !(version.pre is None && version.dev is None),
{
}

} // verus!
