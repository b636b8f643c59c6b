use pep440_rs::Operator as OutsideOperator;
use pep440_rs::Version as OutsideVersion;
use pep440_rs::VersionSpecifier as OutsideSpecifier;
use vstd::prelude::*;

use crate::pep440::{to_pep440, written};
use crate::range::{intersection_of, interval, End, Range, Segment};
use crate::specifier::{
    InvalidTildeEquals, Operator, PubGrubSpecifier, SpecifierParts, VersionSpecifier,
};
use crate::version::{Edge, Version, VersionKey, VersionParts};

verus! {

/// The Python versions that a resolution is for.
pub struct PythonRequirement {
    /// The version of the interpreter that is installed.
    pub installed: Version,
    /// The version for which dependencies are resolved.
    pub target: Version,
}

impl PythonRequirement {
    /// Whether both are versions that can be written, and none an edge of a release.
    pub open spec fn wf(&self) -> bool {
        &&& self.installed@.valid()
        &&& self.installed@.edge is Within
        &&& self.target@.valid()
        &&& self.target@.edge is Within
    }
}

/// Whether `pep440_rs::VersionSpecifier::contains` holds of a specifier and a version.
pub uninterp spec fn specifier_contains(specifier: SpecifierParts, version: VersionParts) -> bool;

/// `pep440_rs::VersionSpecifier::contains`, on a specifier that `from_version` accepts: one
/// without a local label, unless the operator allows it, and with two release numbers for `~=`.
#[verifier::external_body]
fn pep440_specifier_contains(
    operator: Operator,
    specified: OutsideVersion,
    version: &OutsideVersion,
) -> (contained: bool)
    requires
        (SpecifierParts { operator, version: written(specified) }).writable(),
    ensures
        contained == specifier_contains(
            (SpecifierParts { operator, version: written(specified) }),
            written(*version),
        ),
{
    let operator = match operator {
        Operator::Equal => OutsideOperator::Equal,
        Operator::EqualStar => OutsideOperator::EqualStar,
        Operator::ExactEqual => OutsideOperator::ExactEqual,
        Operator::NotEqual => OutsideOperator::NotEqual,
        Operator::NotEqualStar => OutsideOperator::NotEqualStar,
        Operator::TildeEqual => OutsideOperator::TildeEqual,
        Operator::LessThan => OutsideOperator::LessThan,
        Operator::LessThanEqual => OutsideOperator::LessThanEqual,
        Operator::GreaterThan => OutsideOperator::GreaterThan,
        Operator::GreaterThanEqual => OutsideOperator::GreaterThanEqual,
    };
    OutsideSpecifier::from_version(operator, specified).unwrap().contains(version)
}

impl SpecifierParts {
    /// Whether this is a specifier that PEP 440 lets one write.
    pub open spec fn writable(self) -> bool {
        &&& self.valid()
        &&& self.version.local.len() > 0 ==> self.operator is Equal || self.operator is ExactEqual
            || self.operator is NotEqual
        &&& !self.is_invalid_tilde()
    }
}

impl VersionSpecifier {
    /// Whether this is a specifier that PEP 440 lets one write.
    pub fn is_writable(&self) -> (answer: bool)
        ensures
            answer == self@.writable(),
    {
        let version = &self.version;
        let local = match self.operator {
            Operator::Equal | Operator::ExactEqual | Operator::NotEqual => true,
            _ => version.local.len() == 0,
        };
        let tilde = match self.operator {
            Operator::TildeEqual => version.release.len() >= 2,
            _ => true,
        };
        let within = match version.edge {
            Edge::Within => true,
            _ => false,
        };
        version.release.len() > 0 && within && local && tilde
    }

    /// Whether the numbers that the conversion to a range raises by one can be raised.
    pub fn is_convertible(&self) -> (answer: bool)
        requires
            self@.valid(),
        ensures
            answer == self@.convertible(),
    {
        let version = &self.version;
        let length: usize = version.release.len();
        match self.operator {
            Operator::TildeEqual => length < 2 || version.release[length - 2] < u64::MAX,
            Operator::GreaterThan => match (version.dev, version.post) {
                (Some(dev), _) => dev < u64::MAX,
                (None, Some(post)) => post < u64::MAX,
                (None, None) => true,
            },
            Operator::EqualStar | Operator::NotEqualStar => match (version.post, version.pre) {
                (Some(post), _) => post < u64::MAX,
                (None, Some(pre)) => pre.number < u64::MAX,
                (None, None) => version.release[length - 1] < u64::MAX,
            },
            _ => true,
        }
    }
}

/// The specifiers, as they are written.
pub open spec fn specifier_parts(specifiers: Seq<VersionSpecifier>) -> Seq<SpecifierParts> {
    specifiers.map_values(|specifier: VersionSpecifier| specifier@)
}

/// Whether every specifier holds of the version.
pub open spec fn all_contain(specifiers: Seq<SpecifierParts>, version: VersionParts) -> bool {
    forall|i: int|
        0 <= i < specifiers.len() ==> specifier_contains(#[trigger] specifiers[i], version)
}

/// Whether every specifier is one that PEP 440 lets one write.
pub open spec fn all_writable(specifiers: Seq<SpecifierParts>) -> bool {
    forall|i: int| 0 <= i < specifiers.len() ==> (#[trigger] specifiers[i]).writable()
}

/// Whether every specifier is one that PEP 440 lets one write.
pub fn are_writable(specifiers: &Vec<VersionSpecifier>) -> (answer: bool)
    ensures
        answer == all_writable(specifier_parts(specifiers@)),
{
    for i in 0..specifiers.len()
        invariant
            forall|j: int|
                0 <= j < i ==> (#[trigger] specifier_parts(specifiers@)[j]).writable(),
    {
        assert(specifier_parts(specifiers@)[i as int] == specifiers@[i as int]@);
        if !specifiers[i].is_writable() {
            return false;
        }
    }
    true
}

/// Whether a `Requires-Python` allows the Python version: every specifier in it holds.
pub fn requires_python_contains(
    requires_python: &Vec<VersionSpecifier>,
    version: &Version,
) -> (contained: bool)
    requires
        all_writable(specifier_parts(requires_python@)),
        version@.valid(),
    ensures
        contained == all_contain(specifier_parts(requires_python@), version@),
{
    let outside = to_pep440(version);
    for i in 0..requires_python.len()
        invariant
            all_writable(specifier_parts(requires_python@)),
            written(outside) == version@,
            forall|j: int|
                0 <= j < i ==> specifier_contains(
                    #[trigger] specifier_parts(requires_python@)[j],
                    version@,
                ),
    {
        let specifier = &requires_python[i];
        assert(specifier_parts(requires_python@)[i as int] == specifier@);
        if !pep440_specifier_contains(
            specifier.operator,
            to_pep440(&specifier.version),
            &outside,
        ) {
            return false;
        }
    }
    true
}

/// Whether every specifier accepts the version at `key`.
pub open spec fn all_accept(specifiers: Seq<SpecifierParts>, key: VersionKey) -> bool {
    forall|i: int| 0 <= i < specifiers.len() ==> (#[trigger] specifiers[i]).accepts(key)
}

/// The intervals of the versions that satisfy every specifier.
pub open spec fn all_segments(specifiers: Seq<SpecifierParts>) -> Seq<Segment>
    decreases specifiers.len(),
{
    if specifiers.len() == 0 {
        interval(End::Unbounded, End::Unbounded)
    } else {
        intersection_of(all_segments(specifiers.drop_last()), specifiers.last().segments())
    }
}

/// Whether the specifier at `i` is the first that has no range.
pub open spec fn first_invalid(specifiers: Seq<SpecifierParts>, i: int) -> bool {
    &&& 0 <= i < specifiers.len()
    &&& specifiers[i].is_invalid_tilde()
    &&& forall|j: int| 0 <= j < i ==> !(#[trigger] specifiers[j]).is_invalid_tilde()
}

/// The first specifier that has no range.
pub open spec fn first_without_range(specifiers: Seq<SpecifierParts>) -> Option<SpecifierParts>
    decreases specifiers.len(),
{
    if specifiers.len() == 0 {
        None
    } else {
        let before = first_without_range(specifiers.drop_last());
        if before is Some {
            before
        } else if specifiers.last().is_invalid_tilde() {
            Some(specifiers.last())
        } else {
            None
        }
    }
}

/// Specifiers that all have a range have no first one that has none.
proof fn lemma_all_have_ranges(specifiers: Seq<SpecifierParts>)
    requires
        forall|i: int| 0 <= i < specifiers.len() ==> !(#[trigger] specifiers[i]).is_invalid_tilde(),
    ensures
        first_without_range(specifiers) is None,
    decreases specifiers.len(),
{
    if specifiers.len() > 0 {
        assert forall|i: int| 0 <= i < specifiers.drop_last().len() implies !(
        #[trigger] specifiers.drop_last()[i]).is_invalid_tilde() by {
            assert(specifiers.drop_last()[i] == specifiers[i]);
        }
        lemma_all_have_ranges(specifiers.drop_last());
        assert(specifiers[specifiers.len() - 1] == specifiers.last());
    }
}

/// The first specifier without a range stays the first, however many follow.
proof fn lemma_first_without_range(specifiers: Seq<SpecifierParts>, i: int)
    requires
        first_invalid(specifiers, i),
    ensures
        first_without_range(specifiers) == Some(specifiers[i]),
    decreases specifiers.len(),
{
    let before = specifiers.drop_last();
    if i < before.len() {
        assert(before[i] == specifiers[i]);
        assert(first_invalid(before, i));
        lemma_first_without_range(before, i);
    } else {
        assert forall|j: int| 0 <= j < before.len() implies !(
        #[trigger] before[j]).is_invalid_tilde() by {
            assert(before[j] == specifiers[j]);
        }
        lemma_all_have_ranges(before);
    }
}

/// The range of the versions that satisfy every specifier. Fails on the first specifier that has
/// no range.
pub fn specifiers_range(specifiers: &Vec<VersionSpecifier>) -> (range: Result<
    Range,
    InvalidTildeEquals,
>)
    requires
        forall|i: int|
            0 <= i < specifiers@.len() ==> (#[trigger] specifier_parts(specifiers@)[i]).valid()
                && specifier_parts(specifiers@)[i].convertible(),
    ensures
        range is Ok <==> forall|i: int|
            0 <= i < specifiers@.len() ==> !(#[trigger] specifier_parts(
                specifiers@,
            )[i]).is_invalid_tilde(),
        range matches Ok(range) ==> range@ == all_segments(specifier_parts(specifiers@)),
        range matches Ok(range) ==> forall|key: VersionKey| #[trigger]
            range.has(key) == all_accept(specifier_parts(specifiers@), key),
        first_without_range(specifier_parts(specifiers@)) == match range {
            Ok(_) => None,
            Err(error) => Some(error.specifier@),
        },
{
    let ghost parts = specifier_parts(specifiers@);
    let mut range = Range::full();
    for i in 0..specifiers.len()
        invariant
            parts == specifier_parts(specifiers@),
            forall|j: int|
                0 <= j < specifiers@.len() ==> (#[trigger] parts[j]).valid()
                    && parts[j].convertible(),
            forall|j: int| 0 <= j < i ==> !(#[trigger] parts[j]).is_invalid_tilde(),
            range@ == all_segments(parts.take(i as int)),
            forall|key: VersionKey| #[trigger] range.has(key) == all_accept(parts.take(i as int), key),
    {
        assert(parts[i as int] == specifiers@[i as int]@);
        let specifier = match PubGrubSpecifier::try_from(&specifiers[i]) {
            Ok(specifier) => specifier,
            Err(error) => {
                proof {
                    assert(first_invalid(parts, i as int));
                    lemma_first_without_range(parts, i as int);
                }
                return Err(error);
            },
        };
        let ghost before = range;
        let single = Range::from(specifier);
        range = range.intersection(&single);
        proof {
            assert(parts.take(i + 1).drop_last() =~= parts.take(i as int));
            assert forall|key: VersionKey| #[trigger] range.has(key) == all_accept(
                parts.take(i + 1),
                key,
            ) by {
                let now = parts.take(i + 1);
                let then = parts.take(i as int);
                assert(range.has(key) == (before.has(key) && single.has(key)));
                assert(single.has(key) == parts[i as int].accepts(key));
                assert(now[i as int] == parts[i as int]);
                if all_accept(now, key) {
                    assert forall|j: int| 0 <= j < then.len() implies (#[trigger] then[j]).accepts(
                        key,
                    ) by {
                        assert(then[j] == now[j]);
                    }
                }
                if all_accept(then, key) && parts[i as int].accepts(key) {
                    assert forall|j: int| 0 <= j < now.len() implies (#[trigger] now[j]).accepts(
                        key,
                    ) by {
                        if j < i {
                            assert(now[j] == then[j]);
                        }
                    }
                }
            }
        }
    }
    proof {
        assert(parts.take(parts.len() as int) =~= parts);
        lemma_all_have_ranges(parts);
    }
    Ok(range)
}

/// A version satisfies no specifiers at all, satisfies one exactly if the specifier holds, and
/// satisfies two lists together exactly if it satisfies each.
pub proof fn law_every_specifier_has_to_hold(
    one: SpecifierParts,
    left: Seq<SpecifierParts>,
    right: Seq<SpecifierParts>,
    version: VersionParts,
    key: VersionKey,
)
    ensures
        all_contain(Seq::empty(), version),
        all_contain(seq![one], version) <==> specifier_contains(one, version),
        all_contain(left + right, version) <==> all_contain(left, version) && all_contain(
            right,
            version,
        ),
        all_accept(Seq::empty(), key),
        all_accept(seq![one], key) <==> one.accepts(key),
        all_accept(left + right, key) <==> all_accept(left, key) && all_accept(right, key),
        all_writable(Seq::empty()),
        all_writable(seq![one]) <==> one.writable(),
        all_writable(left + right) <==> all_writable(left) && all_writable(right),
{
    let single = seq![one];
    assert(single[0] == one);
    let both = left + right;
    assert forall|i: int| 0 <= i < left.len() implies #[trigger] left[i] == both[i] by {}
    assert forall|i: int| 0 <= i < right.len() implies #[trigger] right[i] == both[left.len()
        + i] by {}
    assert forall|i: int| 0 <= i < both.len() implies (#[trigger] both[i]) == if i < left.len() {
        left[i]
    } else {
        right[i - left.len()]
    } by {}
}

/// Of a list of specifiers the one that is refused is a `~=` with a single release number, and all
/// before it have a range. None is refused exactly if all have a range.
pub proof fn law_the_first_specifier_without_a_range_is_refused(specifiers: Seq<SpecifierParts>)
    ensures
        match first_without_range(specifiers) {
            Some(refused) => exists|i: int|
                0 <= i < specifiers.len() && #[trigger] specifiers[i] == refused
                    && refused.operator is TildeEqual && refused.version.release.len() < 2 && forall|
                    j: int,
                |
                    0 <= j < i ==> !((#[trigger] specifiers[j]).operator is TildeEqual
                        && specifiers[j].version.release.len() < 2),
            None => forall|j: int|
                0 <= j < specifiers.len() ==> !((#[trigger] specifiers[j]).operator is TildeEqual
                    && specifiers[j].version.release.len() < 2),
        },
    decreases specifiers.len(),
{
    if exists|i: int| first_invalid(specifiers, i) {
        let i = choose|i: int| first_invalid(specifiers, i);
        lemma_first_without_range(specifiers, i);
        assert(specifiers[i].is_invalid_tilde());
    } else {
        assert forall|j: int| 0 <= j < specifiers.len() implies !(
        #[trigger] specifiers[j]).is_invalid_tilde() by {
            if specifiers[j].is_invalid_tilde() {
                lemma_some_first(specifiers, j);
            }
        }
        lemma_all_have_ranges(specifiers);
    }
}

/// A list with a specifier without a range has a first one.
proof fn lemma_some_first(specifiers: Seq<SpecifierParts>, i: int)
    requires
        0 <= i < specifiers.len(),
        specifiers[i].is_invalid_tilde(),
    ensures
        exists|j: int| first_invalid(specifiers, j),
    decreases i,
{
    if exists|j: int| 0 <= j < i && (#[trigger] specifiers[j]).is_invalid_tilde() {
        let j = choose|j: int| 0 <= j < i && (#[trigger] specifiers[j]).is_invalid_tilde();
        lemma_some_first(specifiers, j);
    } else {
        assert(first_invalid(specifiers, i));
    }
}

/// A specifier can be written exactly if it has a release number and no edge, carries a local
/// label only behind `==`, `===` or `!=`, and has two release numbers behind `~=`.
pub proof fn law_what_can_be_written(specifier: SpecifierParts)
    ensures
        specifier.writable() <==> {
            &&& specifier.version.release.len() > 0
            &&& specifier.version.edge is Within
            &&& specifier.version.local.len() == 0 || specifier.operator is Equal
                || specifier.operator is ExactEqual || specifier.operator is NotEqual
            &&& specifier.operator is TildeEqual ==> specifier.version.release.len() >= 2
        },
{
}

} // verus!
