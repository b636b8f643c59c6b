use vstd::prelude::*;

use crate::order::{lex_lt, strict_total_order};
use crate::specifier::{Operator, SpecifierParts};
use crate::version::{
    key_lt, law_versions_are_totally_ordered, local_lt, trim_zeros, Edge, VersionKey, VersionParts,
};

verus! {

/// Whether a specifier with the operator and the version accepts the version at `key`.
pub open spec fn meets(operator: Operator, version: VersionParts, key: VersionKey) -> bool {
    (SpecifierParts { operator, version }).accepts(key)
}

/// Whether the versions are of the same epoch and release, trailing zeros aside.
pub open spec fn same_release(one: VersionParts, other: VersionParts) -> bool {
    one.epoch == other.epoch && trim_zeros(one.release) == trim_zeros(other.release)
}

/// A version that can be written, and that is no edge of a release.
pub open spec fn ordinary(version: VersionParts) -> bool {
    version.valid() && version.edge is Within
}

/// `<=V` accepts V and the versions before it, and no others.
pub proof fn law_less_or_equal(version: VersionParts, key: VersionKey)
    ensures
        meets(Operator::LessThanEqual, version, key) <==> key == version.key() || key_lt(
            key,
            version.key(),
        ),
        key_lt(version.key(), key) ==> !meets(Operator::LessThanEqual, version, key),
{
    law_versions_are_totally_ordered();
    let lt = |a: VersionKey, b: VersionKey| key_lt(a, b);
    assert(strict_total_order(lt));
    assert(lt(key, version.key()) || lt(version.key(), key) || key == version.key());
    if lt(key, version.key()) && lt(version.key(), key) {
        assert(lt(key, key));
    }
    assert(!lt(key, key));
}

/// `>=V` accepts V and the versions after it, and no others.
pub proof fn law_greater_or_equal(version: VersionParts, key: VersionKey)
    ensures
        meets(Operator::GreaterThanEqual, version, key) <==> key == version.key() || key_lt(
            version.key(),
            key,
        ),
        key_lt(key, version.key()) ==> !meets(Operator::GreaterThanEqual, version, key),
{
    law_versions_are_totally_ordered();
    let lt = |a: VersionKey, b: VersionKey| key_lt(a, b);
    assert(strict_total_order(lt));
    assert(lt(key, version.key()) || lt(version.key(), key) || key == version.key());
    if lt(key, version.key()) && lt(version.key(), key) {
        assert(lt(key, key));
    }
    assert(!lt(key, key));
}

/// `==V` and `===V` accept V and no other version, which is what `<=V` and `>=V` both accept.
pub proof fn law_equal(version: VersionParts, key: VersionKey)
    ensures
        meets(Operator::Equal, version, key) <==> key == version.key(),
        meets(Operator::ExactEqual, version, key) <==> key == version.key(),
        meets(Operator::Equal, version, key) <==> meets(Operator::LessThanEqual, version, key)
            && meets(Operator::GreaterThanEqual, version, key),
        meets(Operator::LessThanEqual, version, key) || meets(
            Operator::GreaterThanEqual,
            version,
            key,
        ),
{
    law_less_or_equal(version, key);
    law_greater_or_equal(version, key);
    law_versions_are_totally_ordered();
    let lt = |a: VersionKey, b: VersionKey| key_lt(a, b);
    assert(strict_total_order(lt));
    assert(lt(key, version.key()) || lt(version.key(), key) || key == version.key());
}

/// `!=V` accepts every version but V, and `!=V.*` every version that `==V.*` does not accept.
pub proof fn law_not_equal(version: VersionParts, key: VersionKey)
    ensures
        meets(Operator::NotEqual, version, key) <==> key != version.key(),
        meets(Operator::NotEqualStar, version, key) <==> !meets(Operator::EqualStar, version, key),
{
}

/// `<V` on a pre-release V accepts exactly the versions before it. On any other V it accepts those
/// of them that are of another release: neither V nor any version of its release.
pub proof fn law_less_than(version: VersionParts, other: VersionParts)
    requires
        ordinary(version),
        ordinary(other),
    ensures
        (version.pre is Some || version.dev is Some) ==> (meets(
            Operator::LessThan,
            version,
            other.key(),
        ) <==> key_lt(other.key(), version.key())),
        version.pre is None && version.dev is None ==> (meets(
            Operator::LessThan,
            version,
            other.key(),
        ) <==> key_lt(other.key(), version.key()) && !same_release(other, version)),
        !meets(Operator::LessThan, version, version.key()),
{
    law_versions_are_totally_ordered();
    let lt = |a: VersionKey, b: VersionKey| key_lt(a, b);
    assert(!lt(version.key(), version.key()));
}

/// `>V` on a version without a development or post-release number accepts exactly the versions
/// after it that are of another release or of another pre-release: neither V nor its post-releases
/// nor its local versions. Left out is the post-release with the highest number there is, with a
/// local label.
pub proof fn law_greater_than(version: VersionParts, other: VersionParts)
    requires
        ordinary(version),
        ordinary(other),
        version.dev is None,
        version.post is None,
        !(other.post == Some(u64::MAX) && other.local.len() > 0),
    ensures
        meets(Operator::GreaterThan, version, other.key()) <==> key_lt(version.key(), other.key())
            && !(same_release(other, version) && other.pre == version.pre),
{
    assert(other.local.len() == 0 ==> !lex_lt(version.local, other.local, local_lt()));
}

/// `>V` on a development version without a local label accepts exactly the versions after it, its
/// own local versions aside.
pub proof fn law_greater_than_a_development_version(version: VersionParts, other: VersionParts)
    requires
        ordinary(version),
        ordinary(other),
        version.dev is Some,
        version.dev->0 < u64::MAX,
        version.local.len() == 0,
    ensures
        meets(Operator::GreaterThan, version, other.key()) <==> key_lt(version.key(), other.key())
            && !(same_release(other, version) && other.pre == version.pre && other.post
            == version.post && other.dev == version.dev),
{
    if meets(Operator::GreaterThan, version, other.key()) {
        law_greater_than_is_after(version, other.key());
    }
    lemma_before(version, other);
    assert(!lex_lt(other.local, version.local, local_lt()));
}

/// `>V` on a post-release without a local label accepts exactly the versions after it, without its
/// own local versions and the development versions of the next post-release.
pub proof fn law_greater_than_a_post_release(version: VersionParts, other: VersionParts)
    requires
        ordinary(version),
        ordinary(other),
        version.dev is None,
        version.post is Some,
        version.post->0 < u64::MAX,
        version.local.len() == 0,
    ensures
        meets(Operator::GreaterThan, version, other.key()) <==> key_lt(version.key(), other.key())
            && !(same_release(other, version) && other.pre == version.pre && (other.post
            == version.post || (other.post == Some((version.post->0 + 1) as u64) && other.dev
            is Some && other.dev->0 < u64::MAX))),
{
    if meets(Operator::GreaterThan, version, other.key()) {
        law_greater_than_is_after(version, other.key());
    }
    lemma_before(version, other);
    assert(!lex_lt(other.local, version.local, local_lt()));
}

/// Of two versions one does not come before the other if the other comes before it.
proof fn lemma_before(one: VersionParts, other: VersionParts)
    ensures
        key_lt(one.key(), other.key()) ==> !key_lt(other.key(), one.key()),
{
    law_versions_are_totally_ordered();
    let lt = |a: VersionKey, b: VersionKey| key_lt(a, b);
    assert(strict_total_order(lt));
    if lt(one.key(), other.key()) && lt(other.key(), one.key()) {
        assert(lt(one.key(), one.key()));
    }
}

/// `>V` never accepts V, nor a version before it.
pub proof fn law_greater_than_is_after(version: VersionParts, key: VersionKey)
    requires
        ordinary(version),
        version.dev is Some ==> version.dev->0 < u64::MAX,
        version.dev is None && version.post is Some ==> version.post->0 < u64::MAX,
        meets(Operator::GreaterThan, version, key),
    ensures
        key_lt(version.key(), key),
{
    law_versions_are_totally_ordered();
    let lt = |a: VersionKey, b: VersionKey| key_lt(a, b);
    assert(strict_total_order(lt));
    let bound = if version.dev is Some {
        VersionParts { dev: Some((version.dev->0 + 1) as u64), ..version }
    } else if version.post is Some {
        VersionParts { post: Some((version.post->0 + 1) as u64), ..version }
    } else {
        VersionParts { edge: Edge::Highest, ..version }
    };
    assert(lt(version.key(), bound.key()));
    assert(lt(bound.key(), key) || lt(key, bound.key()) || key == bound.key());
    if lt(bound.key(), key) {
        assert(lt(version.key(), key));
    }
}

/// `==V.*` on a pre-release V without a post-release number accepts exactly the versions of its
/// release that are of the same pre-release.
pub proof fn law_equal_star_matches_the_pre_release(version: VersionParts, other: VersionParts)
    requires
        ordinary(version),
        ordinary(other),
        version.post is None,
        version.pre is Some,
        (version.pre->0).number < u64::MAX,
        version.local.len() == 0,
    ensures
        meets(Operator::EqualStar, version, other.key()) <==> same_release(other, version)
            && other.pre == version.pre,
{
    assert(!lex_lt(other.local, version.local, local_lt()));
}

/// `==V.*` on a post-release V accepts exactly the versions of its release and pre-release that are
/// of the same post-release.
pub proof fn law_equal_star_matches_the_post_release(version: VersionParts, other: VersionParts)
    requires
        ordinary(version),
        ordinary(other),
        version.post is Some,
        version.post->0 < u64::MAX,
        version.local.len() == 0,
    ensures
        meets(Operator::EqualStar, version, other.key()) <==> same_release(other, version)
            && other.pre == version.pre && other.post == version.post,
{
    assert(!lex_lt(other.local, version.local, local_lt()));
}

/// The one specifier that is refused is `~=` on a release of a single number.
pub proof fn law_one_specifier_is_refused(specifier: SpecifierParts)
    requires
        ordinary(specifier.version),
    ensures
        specifier.is_invalid_tilde() <==> specifier.operator == Operator::TildeEqual
            && specifier.version.release.len() == 1,
{
}

/// Every specifier can be converted whose operator raises no number, and `>V` on a version without
/// a development or post-release number.
pub proof fn law_most_operators_raise_no_number(specifier: SpecifierParts)
    ensures
        match specifier.operator {
            Operator::TildeEqual | Operator::EqualStar | Operator::NotEqualStar => true,
            Operator::GreaterThan => specifier.version.dev is None && specifier.version.post is None
                ==> specifier.convertible(),
            _ => specifier.convertible(),
        },
{
}

/// Every specifier can be converted whose numbers are not the highest there are.
pub proof fn law_ordinary_specifiers_are_convertible(specifier: SpecifierParts)
    requires
        ordinary(specifier.version),
        forall|i: int|
            0 <= i < specifier.version.release.len() ==> (#[trigger] specifier.version.release[i])
                < u64::MAX,
        specifier.version.pre is Some ==> (specifier.version.pre->0).number < u64::MAX,
        specifier.version.post is Some ==> specifier.version.post->0 < u64::MAX,
        specifier.version.dev is Some ==> specifier.version.dev->0 < u64::MAX,
    ensures
        specifier.valid(),
        specifier.convertible(),
{
}

} // verus!
