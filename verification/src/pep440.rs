use pep440_rs::LocalSegment as OutsideSegment;
use pep440_rs::Prerelease;
use pep440_rs::PrereleaseKind as OutsideKind;
use pep440_rs::Version as OutsideVersion;
use vstd::prelude::*;

use crate::collections::Keyed;
use crate::version::{
    Edge, LocalSegment, PreRelease, PreReleaseKind, Version, VersionKey, VersionParts,
};

verus! {

/// A version as `pep440_rs` keeps it.
#[verifier::external_type_specification]
#[verifier::external_body]
pub struct ExOutsideVersion(OutsideVersion);

/// What a `pep440_rs::Version` holds: the parts that its getters read back.
pub uninterp spec fn written(version: OutsideVersion) -> VersionParts;

/// Builds a version with `pep440_rs::Version::new` and its `with_` methods. The getters of the
/// outcome read back the parts that were set.
#[verifier::external_body]
fn pep440_build(version: &Version) -> (outside: OutsideVersion)
    requires
        version@.release.len() > 0,
    ensures
        written(outside) == (VersionParts { edge: Edge::Within, ..version@ }),
{
    let pre = version.pre.map(|pre| match pre.kind {
        PreReleaseKind::Alpha => Prerelease { kind: OutsideKind::Alpha, number: pre.number },
        PreReleaseKind::Beta => Prerelease { kind: OutsideKind::Beta, number: pre.number },
        PreReleaseKind::Rc => Prerelease { kind: OutsideKind::Rc, number: pre.number },
    });
    let local = version.local.iter().map(|segment| match segment {
        LocalSegment::Text(text) => OutsideSegment::String(text.clone()),
        LocalSegment::Number(number) => OutsideSegment::Number(*number),
    });
    let outside = OutsideVersion::new(&version.release).with_epoch(version.epoch).with_pre(pre);
    outside.with_post(version.post).with_dev(version.dev).with_local(local.collect())
}

/// `pep440_rs::Version::with_min`: the lowest version of the same release.
#[verifier::external_body]
fn pep440_with_min(outside: OutsideVersion) -> (lowest: OutsideVersion)
    requires
        written(outside).pre is None,
        written(outside).dev is None,
        written(outside).edge is Within,
    ensures
        written(lowest) == (VersionParts { edge: Edge::Lowest, ..written(outside) }),
{
    outside.with_min(Some(0))
}

/// `pep440_rs::Version::with_max`: the highest version of the same release.
#[verifier::external_body]
fn pep440_with_max(outside: OutsideVersion) -> (highest: OutsideVersion)
    requires
        written(outside).post is None,
        written(outside).dev is None,
        written(outside).edge is Within,
    ensures
        written(highest) == (VersionParts { edge: Edge::Highest, ..written(outside) }),
{
    outside.with_max(Some(0))
}

/// The version as `pep440_rs` keeps it.
pub fn to_pep440(version: &Version) -> (outside: OutsideVersion)
    requires
        version@.valid(),
    ensures
        written(outside) == version@,
{
    let outside = pep440_build(version);
    match version.edge {
        Edge::Within => outside,
        Edge::Lowest => pep440_with_min(outside),
        Edge::Highest => pep440_with_max(outside),
    }
}

/// Reads `pep440_rs::MIN_VERSION`, which is `0a0.dev0`.
#[verifier::external_body]
fn pep440_min_version() -> (version: OutsideVersion)
    ensures
        written(version) == min_version_parts(),
{
    pep440_rs::MIN_VERSION.clone()
}

/// The getters of `pep440_rs::Version`: the parts of the version, one by one.
#[verifier::external_body]
pub(crate) fn pep440_parts(outside: &OutsideVersion) -> (version: Version)
    requires
        written(*outside).edge is Within,
    ensures
        version@ == written(*outside),
{
    let kind = |kind: OutsideKind| match kind {
        OutsideKind::Alpha => PreReleaseKind::Alpha,
        OutsideKind::Beta => PreReleaseKind::Beta,
        OutsideKind::Rc => PreReleaseKind::Rc,
    };
    let pre = outside.pre().map(|pre| PreRelease { kind: kind(pre.kind), number: pre.number });
    let local = outside.local().iter().map(|segment| match segment {
        OutsideSegment::String(text) => LocalSegment::Text(text.clone()),
        OutsideSegment::Number(number) => LocalSegment::Number(*number),
    });
    let (post, dev, edge) = (outside.post(), outside.dev(), Edge::Within);
    let release = outside.release().to_vec();
    Version { epoch: outside.epoch(), release, pre, post, dev, local: local.collect(), edge }
}

/// The version that the root package has, `0a0.dev0`.
pub fn min_version() -> (version: Version)
    ensures
        version@ == min_version_parts(),
{
    pep440_parts(&pep440_min_version())
}

/// Compares with `pep440_rs::Version`'s `==`, which pads releases with zeros and then compares
/// the remaining parts in the PEP 440 order.
#[verifier::external_body]
fn pep440_equal(left: &OutsideVersion, right: &OutsideVersion) -> (equal: bool)
    ensures
        equal == (written(*left).key() == written(*right).key()),
{
    left == right
}

/// The parts of the version `0a0.dev0`.
pub open spec fn min_version_parts() -> VersionParts {
    VersionParts {
        epoch: 0,
        release: seq![0u64],
        pre: Some(PreRelease { kind: PreReleaseKind::Alpha, number: 0 }),
        post: None,
        dev: Some(0u64),
        local: Seq::empty(),
        edge: Edge::Within,
    }
}

impl Keyed for Version {
    type Key = VersionKey;
    type Form = VersionParts;

    open spec fn key(&self) -> VersionKey {
        self@.key()
    }

    open spec fn form(&self) -> VersionParts {
        self@
    }

    open spec fn comparable(&self) -> bool {
        self@.valid()
    }

    fn same(&self, other: &Self) -> (equal: bool) {
        let left = to_pep440(self);
        let right = to_pep440(other);
        pep440_equal(&left, &right)
    }

    fn duplicate(&self) -> (copy: Self) {
        self.clone()
    }
}

} // verus!
