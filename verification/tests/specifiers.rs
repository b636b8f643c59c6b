use uv_resolver::pep440::{min_version, to_pep440};
use uv_resolver::range::Range;
use uv_resolver::specifier::{Operator, PubGrubSpecifier, VersionSpecifier};
use uv_resolver::version::{
    Edge, LocalSegment, PreRelease, PreReleaseKind, Version,
};

fn release(numbers: &[u64]) -> Version {
    Version {
        epoch: 0,
        release: numbers.to_vec(),
        pre: None,
        post: None,
        dev: None,
        local: Vec::new(),
        edge: Edge::Within,
    }
}

fn alpha(numbers: &[u64], number: u64) -> Version {
    let mut version = release(numbers);
    version.pre = Some(PreRelease { kind: PreReleaseKind::Alpha, number });
    version
}

fn post(numbers: &[u64], number: u64) -> Version {
    let mut version = release(numbers);
    version.post = Some(number);
    version
}

fn dev(numbers: &[u64], number: u64) -> Version {
    let mut version = release(numbers);
    version.dev = Some(number);
    version
}

fn range(operator: Operator, version: Version) -> Range {
    let specifier = VersionSpecifier { operator, version };
    match PubGrubSpecifier::try_from(&specifier) {
        Ok(specifier) => Range::from(specifier),
        Err(_) => panic!("the specifier has no range"),
    }
}

#[test]
fn equal_holds_equal_versions() {
    let equal = range(Operator::Equal, release(&[1, 2]));
    assert!(equal.contains(&release(&[1, 2])));
    assert!(equal.contains(&release(&[1, 2, 0])));
    assert!(!equal.contains(&release(&[1, 2, 1])));
    let exact = range(Operator::ExactEqual, release(&[1, 2]));
    assert!(exact.contains(&release(&[1, 2])));
    assert_eq!(exact.text(), "==1.2");
}

#[test]
fn not_equal_is_the_complement() {
    let equal = range(Operator::Equal, release(&[1, 2]));
    let not_equal = range(Operator::NotEqual, release(&[1, 2]));
    for version in [release(&[1, 2]), release(&[1, 3]), alpha(&[1, 2], 1), post(&[1, 2], 1)] {
        assert_eq!(equal.contains(&version), !not_equal.contains(&version));
    }
}

#[test]
fn tilde_equal_is_compatible_release() {
    let compatible = range(Operator::TildeEqual, release(&[2, 2, 1]));
    assert!(compatible.contains(&release(&[2, 2, 1])));
    assert!(compatible.contains(&release(&[2, 2, 9])));
    assert!(!compatible.contains(&release(&[2, 2, 0])));
    assert!(!compatible.contains(&release(&[2, 3])));
    assert!(!compatible.contains(&dev(&[2, 3], 0)));
    assert_eq!(compatible.text(), ">=2.2.1, <2.3.dev0");
}

#[test]
fn tilde_equal_is_at_least_and_prefix() {
    let compatible = range(Operator::TildeEqual, release(&[2, 2]));
    let at_least = range(Operator::GreaterThanEqual, release(&[2, 2]));
    let prefix = range(Operator::EqualStar, release(&[2]));
    for version in [
        release(&[2, 1]),
        release(&[2, 2]),
        alpha(&[2, 2], 1),
        release(&[2, 9, 1]),
        dev(&[3], 0),
        release(&[3]),
    ] {
        assert_eq!(
            compatible.contains(&version),
            at_least.contains(&version) && prefix.contains(&version)
        );
    }
}

#[test]
fn tilde_equal_needs_two_numbers() {
    let specifier = VersionSpecifier { operator: Operator::TildeEqual, version: release(&[2]) };
    match PubGrubSpecifier::try_from(&specifier) {
        Ok(_) => panic!("`~=2` has a range"),
        Err(error) => {
            assert_eq!(error.specifier.operator, Operator::TildeEqual);
            assert_eq!(error.specifier.version.release, vec![2]);
        }
    }
}

#[test]
fn less_than_excludes_prereleases() {
    let less = range(Operator::LessThan, release(&[1, 0]));
    assert!(less.contains(&release(&[0, 9])));
    assert!(!less.contains(&alpha(&[1, 0], 1)));
    assert!(!less.contains(&dev(&[1, 0], 0)));
    assert!(!less.contains(&release(&[1, 0])));
    let less = range(Operator::LessThan, alpha(&[1, 0], 2));
    assert!(less.contains(&alpha(&[1, 0], 1)));
    assert!(!less.contains(&alpha(&[1, 0], 2)));
}

#[test]
fn less_than_equal_holds_the_version() {
    let range = range(Operator::LessThanEqual, release(&[1, 0]));
    assert!(range.contains(&release(&[1, 0])));
    assert!(range.contains(&alpha(&[1, 0], 1)));
    assert!(!range.contains(&release(&[1, 1])));
}

#[test]
fn greater_than_excludes_post_releases() {
    let greater = range(Operator::GreaterThan, release(&[1, 0]));
    assert!(!greater.contains(&release(&[1, 0])));
    assert!(!greater.contains(&post(&[1, 0], 5)));
    assert!(greater.contains(&release(&[1, 1])));
    let greater = range(Operator::GreaterThan, post(&[1, 0], 1));
    assert!(!greater.contains(&post(&[1, 0], 1)));
    assert!(greater.contains(&post(&[1, 0], 2)));
    let greater = range(Operator::GreaterThan, dev(&[1, 0], 1));
    assert!(!greater.contains(&dev(&[1, 0], 1)));
    assert!(greater.contains(&dev(&[1, 0], 2)));
    assert!(greater.contains(&release(&[1, 0])));
}

#[test]
fn greater_than_equal_holds_the_version() {
    let range = range(Operator::GreaterThanEqual, release(&[1, 0]));
    assert!(range.contains(&release(&[1, 0])));
    assert!(range.contains(&post(&[1, 0], 1)));
    assert!(!range.contains(&alpha(&[1, 0], 1)));
}

#[test]
fn equal_star_matches_the_prefix() {
    let star = range(Operator::EqualStar, release(&[1, 2]));
    assert!(star.contains(&release(&[1, 2])));
    assert!(star.contains(&release(&[1, 2, 7])));
    assert!(star.contains(&dev(&[1, 2], 0)));
    assert!(star.contains(&post(&[1, 2, 9], 3)));
    assert!(!star.contains(&release(&[1, 3])));
    assert!(!star.contains(&dev(&[1, 3], 0)));
    assert!(!star.contains(&release(&[1])));
    let star = range(Operator::EqualStar, release(&[1, 0]));
    assert!(star.contains(&release(&[1])));
    let star = range(Operator::EqualStar, alpha(&[1, 0], 1));
    assert!(star.contains(&alpha(&[1, 0], 1)));
    assert!(!star.contains(&alpha(&[1, 0], 2)));
    let star = range(Operator::EqualStar, post(&[1, 0], 1));
    assert!(star.contains(&post(&[1, 0], 1)));
    assert!(!star.contains(&post(&[1, 0], 2)));
}

#[test]
fn not_equal_star_is_the_complement() {
    let star = range(Operator::EqualStar, release(&[1, 2]));
    let not_star = range(Operator::NotEqualStar, release(&[1, 2]));
    for version in [release(&[1, 1]), release(&[1, 2]), release(&[1, 2, 7]), release(&[1, 3])] {
        assert_eq!(star.contains(&version), !not_star.contains(&version));
    }
}

#[test]
fn versions_order_by_every_part() {
    // Each version comes before the next.
    let mut first = release(&[1, 0]);
    first.edge = Edge::Lowest;
    let mut local_text = release(&[1, 0]);
    local_text.local = vec![LocalSegment::Text("a".to_string())];
    let mut local_number = release(&[1, 0]);
    local_number.local = vec![LocalSegment::Number(1)];
    let mut last = release(&[1, 0]);
    last.edge = Edge::Highest;
    let mut epoch = release(&[0, 1]);
    epoch.epoch = 1;
    let mut beta = alpha(&[1, 0], 1);
    beta.pre = Some(PreRelease { kind: PreReleaseKind::Beta, number: 0 });
    let mut candidate = alpha(&[1, 0], 1);
    candidate.pre = Some(PreRelease { kind: PreReleaseKind::Rc, number: 0 });
    let versions = [
        first,
        dev(&[1, 0], 0),
        dev(&[1, 0], 1),
        alpha(&[1, 0], 1),
        alpha(&[1, 0], 2),
        beta,
        candidate,
        release(&[1, 0]),
        local_text,
        local_number,
        post(&[1, 0], 0),
        post(&[1, 0], 1),
        last,
        release(&[1, 0, 1]),
        release(&[1, 1]),
        epoch,
    ];
    for i in 0..versions.len() {
        for j in 0..versions.len() {
            let after = Range::strictly_higher_than(&versions[i]);
            assert_eq!(after.contains(&versions[j]), i < j, "{i} and {j}");
        }
    }
}

#[test]
fn the_lowest_version_is_written_as_pep440_has_it() {
    let lowest = min_version();
    assert_eq!(to_pep440(&lowest).to_string(), "0a0.dev0");
    assert_eq!(lowest.release, vec![0]);
    assert_eq!(lowest.dev, Some(0));
}

#[test]
fn versions_are_handed_over_with_every_part() {
    let mut version = alpha(&[5, 6, 7], 8);
    version.epoch = 4;
    version.post = Some(9);
    version.dev = Some(0);
    version.local = vec![LocalSegment::Text("ubuntu".to_string()), LocalSegment::Number(1)];
    assert_eq!(to_pep440(&version).to_string(), "4!5.6.7a8.post9.dev0+ubuntu.1");
}

#[test]
fn ranges_intersect_and_complement() {
    let low = Range::higher_than(&release(&[1]));
    let high = Range::strictly_lower_than(&release(&[2]));
    let both = low.intersection(&high);
    assert!(both.contains(&release(&[1, 5])));
    assert!(!both.contains(&release(&[2])));
    assert!(!both.contains(&release(&[0, 9])));
    let outside = both.complement();
    assert!(!outside.contains(&release(&[1, 5])));
    assert!(outside.contains(&release(&[2])));
    assert!(Range::full().contains(&release(&[7])));
    assert!(!Range::between(&release(&[2]), &release(&[1])).contains(&release(&[1, 5])));
    assert!(Range::lower_than(&release(&[2])).contains(&release(&[2])));
    assert!(!Range::singleton(&release(&[2])).contains(&release(&[2, 1])));
}
