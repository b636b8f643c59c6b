use pep440_rs::Version as OutsideVersion;
use pubgrub::Ranges;
use vstd::prelude::*;

use crate::collections::Keyed;
use crate::pep440::{to_pep440, written};
use crate::version::{key_lt, Version, VersionKey, VersionParts};

verus! {

/// A set of versions as `pubgrub` keeps it.
#[verifier::external_type_specification]
#[verifier::external_body]
#[verifier::reject_recursive_types(V)]
pub struct ExRanges<V>(Ranges<V>);

/// One end of an interval of versions.
pub enum End {
    Included(VersionParts),
    Excluded(VersionParts),
    Unbounded,
}

/// An interval of versions.
pub struct Segment {
    pub start: End,
    pub end: End,
}

/// An end of an interval by the place of its version in the order of versions.
pub enum EndKey {
    Included(VersionKey),
    Excluded(VersionKey),
    Unbounded,
}

impl End {
    /// Whether a version at `key` is not cut off by this end as the start of an interval.
    pub open spec fn starts_by(self, key: VersionKey) -> bool {
        match self {
            End::Included(version) => !key_lt(key, version.key()),
            End::Excluded(version) => key_lt(version.key(), key),
            End::Unbounded => true,
        }
    }

    /// Whether a version at `key` is not cut off by this end as the end of an interval.
    pub open spec fn ends_after(self, key: VersionKey) -> bool {
        match self {
            End::Included(version) => !key_lt(version.key(), key),
            End::Excluded(version) => key_lt(key, version.key()),
            End::Unbounded => true,
        }
    }

    /// The place of this end in the order of versions.
    pub open spec fn key(self) -> EndKey {
        match self {
            End::Included(version) => EndKey::Included(version.key()),
            End::Excluded(version) => EndKey::Excluded(version.key()),
            End::Unbounded => EndKey::Unbounded,
        }
    }
}

impl Segment {
    /// Whether the interval holds the version at `key`.
    pub open spec fn has(self, key: VersionKey) -> bool {
        self.start.starts_by(key) && self.end.ends_after(key)
    }
}

/// Whether one of the intervals holds the version at `key`.
pub open spec fn segments_have(segments: Seq<Segment>, key: VersionKey) -> bool {
    exists|i: int| 0 <= i < segments.len() && (#[trigger] segments[i]).has(key)
}

/// The interval between two ends, and nothing else.
pub open spec fn interval(start: End, end: End) -> Seq<Segment> {
    seq![Segment { start, end }]
}

/// The intervals of a set of versions, in ascending order.
pub uninterp spec fn segments(ranges: Ranges<OutsideVersion>) -> Seq<Segment>;

/// How `Ranges<pep440_rs::Version>` with the given intervals is displayed.
pub uninterp spec fn displayed(segments: Seq<Segment>) -> Seq<char>;

/// The intervals of the complement of a set with the given intervals.
pub uninterp spec fn complement_of(segments: Seq<Segment>) -> Seq<Segment>;

/// The intervals of the intersection of two sets with the given intervals.
pub uninterp spec fn intersection_of(left: Seq<Segment>, right: Seq<Segment>) -> Seq<Segment>;

/// `Ranges::full`: every version.
#[verifier::external_body]
fn ranges_full() -> (ranges: Ranges<OutsideVersion>)
    ensures
        segments(ranges) == interval(End::Unbounded, End::Unbounded),
{
    Ranges::full()
}

/// `Ranges::singleton`: the versions equal to the given one.
#[verifier::external_body]
fn ranges_singleton(version: OutsideVersion) -> (ranges: Ranges<OutsideVersion>)
    ensures
        segments(ranges) == interval(
            End::Included(written(version)),
            End::Included(written(version)),
        ),
{
    Ranges::singleton(version)
}

/// `Ranges::higher_than`: the given version and those after it.
#[verifier::external_body]
fn ranges_higher_than(version: OutsideVersion) -> (ranges: Ranges<OutsideVersion>)
    ensures
        segments(ranges) == interval(End::Included(written(version)), End::Unbounded),
{
    Ranges::higher_than(version)
}

/// `Ranges::strictly_higher_than`: the versions after the given one.
#[verifier::external_body]
fn ranges_strictly_higher_than(version: OutsideVersion) -> (ranges: Ranges<OutsideVersion>)
    ensures
        segments(ranges) == interval(End::Excluded(written(version)), End::Unbounded),
{
    Ranges::strictly_higher_than(version)
}

/// `Ranges::lower_than`: the given version and those before it.
#[verifier::external_body]
fn ranges_lower_than(version: OutsideVersion) -> (ranges: Ranges<OutsideVersion>)
    ensures
        segments(ranges) == interval(End::Unbounded, End::Included(written(version))),
{
    Ranges::lower_than(version)
}

/// `Ranges::strictly_lower_than`: the versions before the given one.
#[verifier::external_body]
fn ranges_strictly_lower_than(version: OutsideVersion) -> (ranges: Ranges<OutsideVersion>)
    ensures
        segments(ranges) == interval(End::Unbounded, End::Excluded(written(version))),
{
    Ranges::strictly_lower_than(version)
}

/// `Ranges::from_range_bounds` on `low..high`: the versions from `low` on that come before
/// `high`, and no interval at all if `low` does not come before `high`.
#[verifier::external_body]
fn ranges_from_range_bounds(low: OutsideVersion, high: OutsideVersion) -> (ranges: Ranges<
    OutsideVersion,
>)
    ensures
        segments(ranges) == if key_lt(written(low).key(), written(high).key()) {
            interval(End::Included(written(low)), End::Excluded(written(high)))
        } else {
            Seq::empty()
        },
{
    Ranges::from_range_bounds(low..high)
}

/// `Ranges::complement`: the versions that are not in the set.
#[verifier::external_body]
fn ranges_complement(ranges: &Ranges<OutsideVersion>) -> (complement: Ranges<OutsideVersion>)
    ensures
        segments(complement) == complement_of(segments(*ranges)),
        forall|key: VersionKey|
            #[trigger] segments_have(segments(complement), key) == !segments_have(
                segments(*ranges),
                key,
            ),
{
    ranges.complement()
}

/// `Ranges::intersection`: the versions that are in both sets.
#[verifier::external_body]
fn ranges_intersection(
    left: &Ranges<OutsideVersion>,
    right: &Ranges<OutsideVersion>,
) -> (both: Ranges<OutsideVersion>)
    ensures
        segments(both) == intersection_of(segments(*left), segments(*right)),
        forall|key: VersionKey|
            #[trigger] segments_have(segments(both), key) == (segments_have(segments(*left), key)
                && segments_have(segments(*right), key)),
{
    left.intersection(right)
}

/// `Ranges::contains`: whether the version is in the set.
#[verifier::external_body]
fn ranges_contains(ranges: &Ranges<OutsideVersion>, version: &OutsideVersion) -> (found: bool)
    ensures
        found == segments_have(segments(*ranges), written(*version).key()),
{
    ranges.contains(version)
}

/// `Ranges::clone`: the same intervals again.
#[verifier::external_body]
fn ranges_clone(ranges: &Ranges<OutsideVersion>) -> (copy: Ranges<OutsideVersion>)
    ensures
        segments(copy) == segments(*ranges),
{
    ranges.clone()
}

/// `==` on `Ranges`: the same number of intervals, with equal ends.
#[verifier::external_body]
fn ranges_equal(left: &Ranges<OutsideVersion>, right: &Ranges<OutsideVersion>) -> (equal: bool)
    ensures
        equal == (segment_keys(segments(*left)) == segment_keys(segments(*right))),
{
    left == right
}

/// The `Display` of `Ranges`, by `to_string`.
#[verifier::external_body]
fn ranges_to_string(ranges: &Ranges<OutsideVersion>) -> (text: String)
    ensures
        text@ == displayed(segments(*ranges)),
{
    ranges.to_string()
}

/// The ends of the intervals, each by the place of its version.
pub open spec fn segment_keys(segments: Seq<Segment>) -> Seq<(EndKey, EndKey)> {
    segments.map_values(|segment: Segment| (segment.start.key(), segment.end.key()))
}

/// A set of versions.
pub struct Range {
    pub(crate) ranges: Ranges<OutsideVersion>,
}

impl View for Range {
    type V = Seq<Segment>;

    closed spec fn view(&self) -> Seq<Segment> {
        segments(self.ranges)
    }
}

impl Clone for Range {
    fn clone(&self) -> (copy: Self)
        ensures
            copy@ == self@,
    {
        Range { ranges: ranges_clone(&self.ranges) }
    }
}

impl Keyed for Range {
    type Key = Seq<(EndKey, EndKey)>;
    type Form = Seq<Segment>;

    open spec fn key(&self) -> Seq<(EndKey, EndKey)> {
        segment_keys(self@)
    }

    open spec fn form(&self) -> Seq<Segment> {
        self@
    }

    open spec fn comparable(&self) -> bool {
        true
    }

    fn same(&self, other: &Self) -> (equal: bool) {
        ranges_equal(&self.ranges, &other.ranges)
    }

    fn duplicate(&self) -> (copy: Self) {
        self.clone()
    }
}

impl Range {
    /// Whether the set holds the version at `key`.
    pub open spec fn has(&self, key: VersionKey) -> bool {
        segments_have(self@, key)
    }

    /// Every version.
    pub fn full() -> (range: Range)
        ensures
            range@ == interval(End::Unbounded, End::Unbounded),
            forall|key: VersionKey| #[trigger] range.has(key),
    {
        let range = Range { ranges: ranges_full() };
        assert forall|key: VersionKey| #[trigger] range.has(key) by {
            assert(range@[0].has(key));
        }
        range
    }

    /// The versions equal to `version`.
    pub fn singleton(version: &Version) -> (range: Range)
        requires
            version@.valid(),
        ensures
            range@ == interval(End::Included(version@), End::Included(version@)),
    {
        Range { ranges: ranges_singleton(to_pep440(version)) }
    }

    /// `version` and the versions after it.
    pub fn higher_than(version: &Version) -> (range: Range)
        requires
            version@.valid(),
        ensures
            range@ == interval(End::Included(version@), End::Unbounded),
    {
        Range { ranges: ranges_higher_than(to_pep440(version)) }
    }

    /// The versions after `version`.
    pub fn strictly_higher_than(version: &Version) -> (range: Range)
        requires
            version@.valid(),
        ensures
            range@ == interval(End::Excluded(version@), End::Unbounded),
    {
        Range { ranges: ranges_strictly_higher_than(to_pep440(version)) }
    }

    /// `version` and the versions before it.
    pub fn lower_than(version: &Version) -> (range: Range)
        requires
            version@.valid(),
        ensures
            range@ == interval(End::Unbounded, End::Included(version@)),
    {
        Range { ranges: ranges_lower_than(to_pep440(version)) }
    }

    /// The versions before `version`.
    pub fn strictly_lower_than(version: &Version) -> (range: Range)
        requires
            version@.valid(),
        ensures
            range@ == interval(End::Unbounded, End::Excluded(version@)),
    {
        Range { ranges: ranges_strictly_lower_than(to_pep440(version)) }
    }

    /// The versions from `low` on that come before `high`.
    pub fn between(low: &Version, high: &Version) -> (range: Range)
        requires
            low@.valid(),
            high@.valid(),
        ensures
            range@ == between_segments(low@, high@),
    {
        Range { ranges: ranges_from_range_bounds(to_pep440(low), to_pep440(high)) }
    }

    /// The versions that are not in this set.
    pub fn complement(&self) -> (range: Range)
        ensures
            range@ == complement_of(self@),
            forall|key: VersionKey| #[trigger] range.has(key) == !self.has(key),
    {
        let range = Range { ranges: ranges_complement(&self.ranges) };
        assert forall|key: VersionKey| #[trigger] range.has(key) == !self.has(key) by {
            assert(segments_have(segments(range.ranges), key) == !segments_have(
                segments(self.ranges),
                key,
            ));
        }
        range
    }

    /// The versions that are in both sets.
    pub fn intersection(&self, other: &Range) -> (range: Range)
        ensures
            range@ == intersection_of(self@, other@),
            forall|key: VersionKey|
                #[trigger] range.has(key) == (self.has(key) && other.has(key)),
    {
        let range = Range { ranges: ranges_intersection(&self.ranges, &other.ranges) };
        assert forall|key: VersionKey| #[trigger] range.has(key) == (self.has(key) && other.has(
            key,
        )) by {
            assert(segments_have(segments(range.ranges), key) == (segments_have(
                segments(self.ranges),
                key,
            ) && segments_have(segments(other.ranges), key)));
        }
        range
    }

    /// Whether the set holds `version`.
    pub fn contains(&self, version: &Version) -> (found: bool)
        requires
            version@.valid(),
        ensures
            found == self.has(version@.key()),
    {
        ranges_contains(&self.ranges, &to_pep440(version))
    }

    /// The set as text.
    pub fn text(&self) -> (text: String)
        ensures
            text@ == displayed(self@),
    {
        ranges_to_string(&self.ranges)
    }
}

/// The versions from `low` on that come before `high`: no interval if there can be none.
pub open spec fn between_segments(low: VersionParts, high: VersionParts) -> Seq<Segment> {
    if key_lt(low.key(), high.key()) {
        interval(End::Included(low), End::Excluded(high))
    } else {
        Seq::empty()
    }
}

/// An interval holds exactly the versions between its ends.
pub proof fn lemma_interval(start: End, end: End, key: VersionKey)
    ensures
        segments_have(interval(start, end), key) == (start.starts_by(key) && end.ends_after(key)),
{
    let segments = interval(start, end);
    if start.starts_by(key) && end.ends_after(key) {
        assert(segments[0].has(key));
    }
}

} // verus!
