use vstd::prelude::*;

use crate::availability::{IncompatibleDist, IncompatibleSource, IncompatibleWheel};
use crate::dependencies::{all_expanded, ExpandedView};
use crate::dist::{InstalledDist, PrioritizedDist, ResolvedDist, ResolvedDistRef};
use crate::fetch::{awaited, Arrived, Pending};
use crate::package::{PackageName, PackageView};
use crate::python::{specifier_contains, specifier_parts};
use crate::range::{interval, lemma_interval, segment_keys, segments_have, End, Range, Segment};
use crate::selection::{plain, rangeable, Candidate, CandidateDist, Metadata, MetadataResponse};
use crate::specifier::VersionSpecifier;
use crate::transition::{Answer, ResolverView};
use crate::version::{key_lt, law_versions_are_totally_ordered, Version, VersionKey, VersionParts};

verus! {

/// Whether a version has a release number and is no edge of a release.
pub open spec fn is_written(version: VersionParts) -> bool {
    version.release.len() > 0 && version.edge is Within
}

/// Whether a specifier can be written: it has a release number and no edge, carries a local label
/// only behind `==`, `===` or `!=`, and has two release numbers behind `~=`.
pub open spec fn is_proper(specifier: VersionSpecifier) -> bool {
    &&& is_written(specifier.version@)
    &&& specifier.version@.local.len() == 0 || specifier.operator is Equal
        || specifier.operator is ExactEqual || specifier.operator is NotEqual
    &&& specifier.operator is TildeEqual ==> specifier.version@.release.len() >= 2
}

/// A plain version is one that has a release number and is no edge of a release.
pub proof fn law_plain_versions(version: VersionParts)
    ensures
        plain(version) <==> is_written(version),
{
}

/// Metadata without Python specifiers supports every Python version, and other metadata those of
/// which each of its specifiers holds.
pub proof fn law_supported_python_versions(metadata: Metadata, target: VersionParts)
    ensures
        metadata.requires_python is None ==> metadata.supports(target),
        metadata.requires_python matches Some(specifiers) ==> (metadata.supports(target)
            <==> forall|i: int|
            0 <= i < specifiers@.len() ==> specifier_contains(
                (#[trigger] specifiers@[i])@,
                target,
            )),
{
    if let Some(specifiers) = metadata.requires_python {
        let parts = specifier_parts(specifiers@);
        assert forall|i: int| 0 <= i < specifiers@.len() implies parts[i]
            == (#[trigger] specifiers@[i])@ by {}
        if metadata.supports(target) {
            assert forall|i: int| 0 <= i < specifiers@.len() implies specifier_contains(
                (#[trigger] specifiers@[i])@,
                target,
            ) by {
                assert(specifier_contains(parts[i], target));
            }
        }
    }
}

/// Metadata is well formed exactly if its version is written, and each of its Python specifiers
/// can be written.
pub proof fn law_well_formed_metadata(metadata: Metadata)
    ensures
        metadata.requires_python is None ==> (metadata.wf() <==> is_written(metadata.version@)),
        metadata.requires_python matches Some(specifiers) ==> (metadata.wf() <==> is_written(
            metadata.version@,
        ) && forall|i: int| 0 <= i < specifiers@.len() ==> is_proper(#[trigger] specifiers@[i])),
{
    if let Some(specifiers) = metadata.requires_python {
        let parts = specifier_parts(specifiers@);
        assert forall|i: int| 0 <= i < specifiers@.len() implies parts[i]
            == (#[trigger] specifiers@[i])@ && parts[i].writable() == is_proper(
            specifiers@[i],
        ) by {}
        if metadata.wf() {
            assert forall|i: int| 0 <= i < specifiers@.len() implies is_proper(
                #[trigger] specifiers@[i],
            ) by {
                assert(parts[i].writable());
            }
        }
    }
}

/// Well-formed metadata is an answer if it supports the Python version, if its version is out of the
/// range, or if its Python specifiers have no number that cannot be raised.
pub proof fn law_metadata_is_an_answer(
    metadata: Metadata,
    range: Seq<Segment>,
    target: VersionParts,
)
    requires
        metadata.wf(),
        metadata.supports(target) || !segments_have(range, metadata.version@.key())
            || rangeable((metadata.requires_python->0)@),
    ensures
        metadata.answers(range, target),
{
}

/// Python specifiers have a range, or are refused as ones that have none, if their versions are
/// written and none of their numbers is the highest there is.
pub proof fn law_ordinary_specifiers_have_a_range(specifiers: Seq<VersionSpecifier>)
    requires
        forall|i: int|
            0 <= i < specifiers.len() ==> is_written((#[trigger] specifiers[i]).version@) && {
                let version = specifiers[i].version@;
                &&& forall|k: int|
                    0 <= k < version.release.len() ==> #[trigger] version.release[k] < u64::MAX
                &&& version.pre is Some ==> (version.pre->0).number < u64::MAX
                &&& version.post is Some ==> version.post->0 < u64::MAX
                &&& version.dev is Some ==> version.dev->0 < u64::MAX
            },
    ensures
        rangeable(specifiers),
{
    let parts = specifier_parts(specifiers);
    assert forall|i: int| 0 <= i < specifiers.len() implies (#[trigger] parts[i]).valid()
        && parts[i].convertible() by {
        assert(parts[i] == specifiers[i]@);
        assert(is_written(specifiers[i].version@));
    }
}

/// A candidate fits a range exactly if its version is written and in the range, and its
/// distribution is one of those of its version, or is refused for a reason other than Python
/// versions, or for Python versions that have a range.
pub proof fn law_fitting_candidates(
    version: Version,
    id: String,
    for_installation: ResolvedDist,
    for_resolution: ResolvedDistRef,
    reason: IncompatibleDist,
    range: Seq<Segment>,
)
    ensures
        (Candidate {
            version,
            dist: CandidateDist::Compatible { id, for_installation, for_resolution },
        }).fits(range) <==> is_written(version@) && segments_have(range, version@.key())
            && for_resolution.consistent(),
        (Candidate { version, dist: CandidateDist::Incompatible(reason) }).fits(range)
            <==> is_written(version@) && segments_have(range, version@.key()) && match reason {
            IncompatibleDist::Source(IncompatibleSource::RequiresPython(specifiers)) => rangeable(
                specifiers@,
            ),
            IncompatibleDist::Wheel(IncompatibleWheel::RequiresPython(specifiers)) => rangeable(
                specifiers@,
            ),
            _ => true,
        },
{
}

/// A chosen source distribution is that of its version if it has the same name and an equal
/// version, a chosen wheel if it has the name of the best wheel, and an installed distribution is
/// what it is.
pub proof fn law_consistent_distributions(
    name: PackageName,
    version: Version,
    filename: String,
    prioritized: PrioritizedDist,
    installed: InstalledDist,
)
    requires
        is_written(version@),
    ensures
        prioritized.source_dist is None ==> !(ResolvedDistRef::InstallableRegistrySourceDist {
            name,
            version,
            prioritized,
        }).consistent(),
        prioritized.source_dist matches Some(source) ==> (is_written(source.version@) ==> ((
        ResolvedDistRef::InstallableRegistrySourceDist { name, version, prioritized }).consistent()
            <==> source.name@ == name@ && source.version@.key() == version@.key())),
        (ResolvedDistRef::InstallableRegistryBuiltDist { filename, prioritized }).consistent() <==> {
            &&& prioritized.best_wheel is Some
            &&& (prioritized.best_wheel->0)@ == filename@
            &&& prioritized.built_dist is Some
        },
        ResolvedDistRef::Installed(installed).consistent(),
{
}

/// A requirement stands for a package or an extra, neither for the root nor for Python. The
/// distribution is known of a package that is given by a URL and allowed, and can be missing of any
/// other.
pub proof fn law_what_a_requirement_stands_for(entry: ExpandedView)
    ensures
        entry.dependency.package is Root || entry.dependency.package is Python ==> !entry.wf(),
        entry.dependency.package is Extra ==> entry.wf(),
        entry.dependency.package matches PackageView::Package { url, .. } ==> (entry.wf() <==> url
            is None || !entry.allowed || entry.dist is Some),
        all_expanded(seq![entry]) <==> entry.wf(),
{
    assert(seq![entry][0] == entry);
}

/// Each entry of two lists has to be one that a requirement stands for.
pub proof fn law_every_requirement_counts(left: Seq<ExpandedView>, right: Seq<ExpandedView>)
    ensures
        all_expanded(left + right) <==> all_expanded(left) && all_expanded(right),
        all_expanded(Seq::empty()),
{
    let both = left + right;
    if all_expanded(both) {
        assert forall|i: int| 0 <= i < left.len() implies (#[trigger] left[i]).wf() by {
            assert(both[i] == left[i]);
        }
        assert forall|i: int| 0 <= i < right.len() implies (#[trigger] right[i]).wf() by {
            assert(both[left.len() + i] == right[i]);
        }
    }
}

/// An answer to a question that was not asked is not accepted.
pub proof fn law_other_answers_are_refused(resolver: ResolverView, answer: Answer)
    requires
        resolver.expects(answer),
    ensures
        match answer {
            Answer::Proceed => resolver.phase is Ready,
            Answer::Ranks(_) => resolver.phase is Ranking,
            Answer::Metadata(_) => resolver.phase is Metadata,
            Answer::Versions(_) => resolver.phase is Versions,
            Answer::Candidate(_) => resolver.phase is Candidate,
            Answer::Reason(_) => resolver.phase is Reason,
            Answer::RootRequirements(_) => resolver.phase is RootRequirements,
            Answer::DirectMetadata(_) => resolver.phase is DirectMetadata,
            Answer::Availability { .. } => resolver.phase is Availability,
            Answer::PackageMetadata(_) => resolver.phase is PackageMetadata,
            Answer::PackageRequirements(_) => resolver.phase is PackageRequirements,
        },
{
}

/// Metadata that was found is accepted if it answers for the range and the Python version at hand,
/// metadata that was not is always, and a candidate if it fits the range at hand.
pub proof fn law_fitting_answers_are_accepted(
    resolver: ResolverView,
    metadata: Metadata,
    candidate: Candidate,
    text: String,
)
    ensures
        resolver.phase is Metadata ==> (resolver.expects(
            Answer::Metadata(Some(MetadataResponse::Found(metadata))),
        ) <==> metadata.answers(resolver.phase->Metadata_range, resolver.target)),
        resolver.phase is Metadata ==> {
            &&& resolver.expects(Answer::Metadata(Some(MetadataResponse::InvalidMetadata(text))))
            &&& resolver.expects(
                Answer::Metadata(Some(MetadataResponse::InconsistentMetadata(text))),
            )
            &&& resolver.expects(Answer::Metadata(Some(MetadataResponse::InvalidStructure(text))))
        },
        resolver.phase is Candidate ==> (resolver.expects(Answer::Candidate(Some(candidate)))
            <==> candidate.fits(resolver.phase->Candidate_range)),
{
}

/// A request that waits for a candidate takes any that is refused, and one that can be used if its
/// distribution is one of those of its version. One that waits to be registered takes either
/// answer.
pub proof fn law_candidates_are_awaited<V, A>(
    name: PackageName,
    range: Range,
    version: Version,
    id: String,
    dist: ResolvedDist,
    for_resolution: ResolvedDistRef,
    reason: IncompatibleDist,
    registered: bool,
)
    ensures
        awaited(
            Pending::Selection(name, range),
            Arrived::<V, A>::Selection(
                Some(Candidate { version, dist: CandidateDist::Incompatible(reason) }),
            ),
        ),
        awaited(
            Pending::Selection(name, range),
            Arrived::<V, A>::Selection(
                Some(
                    Candidate {
                        version,
                        dist: CandidateDist::Compatible {
                            id,
                            for_installation: dist,
                            for_resolution,
                        },
                    },
                ),
            ),
        ) <==> for_resolution.consistent(),
        awaited(
            Pending::Registration { id, dist },
            Arrived::<V, A>::Registration(registered),
        ),
{
}

/// What a request does not wait for is not awaited.
pub proof fn law_nothing_else_is_awaited<V, A>(pending: Pending, arrived: Arrived<V, A>)
    requires
        awaited(pending, arrived),
    ensures
        arrived is Versions <==> pending is Versions,
        arrived is Metadata <==> pending is Metadata,
        arrived is Installed <==> pending is Installed,
        arrived is Index <==> pending is Index,
        arrived is Selection <==> pending is Selection,
        arrived is Registration <==> pending is Registration,
{
}

/// An interval holds the versions between its ends, an end itself exactly if it is included.
pub proof fn law_intervals_hold_what_is_between(
    low: VersionParts,
    high: VersionParts,
    key: VersionKey,
)
    ensures
        segments_have(interval(End::Unbounded, End::Unbounded), key),
        segments_have(interval(End::Included(low), End::Unbounded), key) <==> key == low.key()
            || key_lt(low.key(), key),
        segments_have(interval(End::Excluded(low), End::Unbounded), key) <==> key_lt(
            low.key(),
            key,
        ),
        segments_have(interval(End::Unbounded, End::Included(high)), key) <==> key == high.key()
            || key_lt(key, high.key()),
        segments_have(interval(End::Unbounded, End::Excluded(high)), key) <==> key_lt(
            key,
            high.key(),
        ),
        segments_have(interval(End::Included(low), End::Included(low)), key) <==> key == low.key(),
        segments_have(interval(End::Included(low), End::Excluded(high)), key) <==> (key == low.key()
            || key_lt(low.key(), key)) && key_lt(key, high.key()),
{
    law_versions_are_totally_ordered();
    let lt = |a: VersionKey, b: VersionKey| key_lt(a, b);
    assert(!lt(key, key));
    assert(key != low.key() ==> lt(key, low.key()) || lt(low.key(), key));
    assert(key != high.key() ==> lt(key, high.key()) || lt(high.key(), key));
    assert(lt(key, low.key()) && lt(low.key(), key) ==> lt(key, key));
    assert(lt(key, high.key()) && lt(high.key(), key) ==> lt(key, key));
    lemma_interval(End::Unbounded, End::Unbounded, key);
    lemma_interval(End::Included(low), End::Unbounded, key);
    lemma_interval(End::Excluded(low), End::Unbounded, key);
    lemma_interval(End::Unbounded, End::Included(high), key);
    lemma_interval(End::Unbounded, End::Excluded(high), key);
    lemma_interval(End::Included(low), End::Included(low), key);
    lemma_interval(End::Included(low), End::Excluded(high), key);
}

/// Two sets hold a version together exactly if one of them does.
pub proof fn law_every_interval_counts(left: Seq<Segment>, right: Seq<Segment>, key: VersionKey)
    ensures
        segments_have(left + right, key) <==> segments_have(left, key) || segments_have(right, key),
        !segments_have(Seq::empty(), key),
{
    let both = left + right;
    if segments_have(left, key) {
        let i = choose|i: int| 0 <= i < left.len() && (#[trigger] left[i]).has(key);
        assert(both[i].has(key));
    }
    if segments_have(right, key) {
        let i = choose|i: int| 0 <= i < right.len() && (#[trigger] right[i]).has(key);
        assert(both[left.len() + i].has(key));
    }
    if segments_have(both, key) {
        let i = choose|i: int| 0 <= i < both.len() && (#[trigger] both[i]).has(key);
        if i < left.len() {
            assert(left[i].has(key));
        } else {
            assert(right[i - left.len()].has(key));
        }
    }
}

/// Whether two ends are at equal versions, and both included or both excluded.
pub open spec fn same_end(one: End, other: End) -> bool {
    match (one, other) {
        (End::Included(left), End::Included(right)) => left.key() == right.key(),
        (End::Excluded(left), End::Excluded(right)) => left.key() == right.key(),
        (End::Unbounded, End::Unbounded) => true,
        _ => false,
    }
}

/// Ranges are told apart by their intervals, and intervals by their ends.
pub proof fn law_ranges_are_told_apart(one: Seq<Segment>, other: Seq<Segment>)
    ensures
        segment_keys(one) == segment_keys(other) <==> one.len() == other.len() && forall|i: int|
            0 <= i < one.len() ==> same_end((#[trigger] one[i]).start, other[i].start) && same_end(
                one[i].end,
                other[i].end,
            ),
{
    let left = segment_keys(one);
    let right = segment_keys(other);
    assert(left.len() == one.len() && right.len() == other.len());
    if left == right {
        assert forall|i: int| 0 <= i < one.len() implies same_end(
            (#[trigger] one[i]).start,
            other[i].start,
        ) && same_end(one[i].end, other[i].end) by {
            assert(left[i] == right[i]);
        }
    }
    if one.len() == other.len() && forall|i: int|
        0 <= i < one.len() ==> same_end((#[trigger] one[i]).start, other[i].start) && same_end(
            one[i].end,
            other[i].end,
        ) {
        assert forall|i: int| 0 <= i < left.len() implies left[i] == right[i] by {
            assert(same_end(one[i].start, other[i].start));
        }
        assert(left =~= right);
    }
}

} // verus!
