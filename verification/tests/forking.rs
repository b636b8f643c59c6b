use uv_resolver::availability::UnavailableVersion;
use uv_resolver::dependencies::get_dependencies_forking;
use uv_resolver::forks::{split_into_forks, Dependencies, Dependency};
use uv_resolver::package::PubGrubPackage;
use uv_resolver::range::Range;
use uv_resolver::version::{Edge, Version};

fn release(numbers: &[u64]) -> Version {
    Version {
        epoch: 0,
        release: numbers.to_vec(),
        pre: None,
        post: None,
        dev: None,
        local: Vec::new(),
        edge: Edge::Within,
    }
}

fn dependency(name: &str, marker: Option<&str>, low: u64) -> Dependency {
    Dependency {
        package: PubGrubPackage::Package {
            name: name.to_string(),
            extra: None,
            marker: marker.map(|marker| marker.to_string()),
            url: None,
        },
        range: Range::higher_than(&release(&[low])),
    }
}

fn show(fork: &[Dependency]) -> Vec<String> {
    fork.iter()
        .map(|dependency| match &dependency.package {
            PubGrubPackage::Package { name, .. } => format!("{name}{}", dependency.range.text()),
            _ => panic!("only packages are depended on"),
        })
        .collect()
}

#[test]
fn agreeing_ranges_do_not_fork() {
    let dependencies =
        vec![dependency("a", None, 1), dependency("b", None, 2), dependency("a", Some("m"), 1)];
    let forks = split_into_forks(&dependencies);
    assert_eq!(forks.len(), 1);
    assert_eq!(show(&forks[0]), vec!["a>=1", "a>=1", "b>=2"]);
}

#[test]
fn nothing_is_a_single_fork() {
    let forks = split_into_forks(&Vec::new());
    assert_eq!(forks.len(), 1);
    assert_eq!(forks[0].len(), 0);
}

#[test]
fn each_choice_of_ranges_is_a_fork() {
    let dependencies = vec![
        dependency("a", Some("x"), 1),
        dependency("a", Some("y"), 2),
        dependency("c", None, 5),
        dependency("b", Some("x"), 3),
        dependency("b", Some("y"), 4),
    ];
    let forks = split_into_forks(&dependencies);
    let mut shown: Vec<Vec<String>> = forks.iter().map(|fork| show(fork)).collect();
    shown.sort();
    assert_eq!(
        shown,
        vec![
            vec!["a>=1", "c>=5", "b>=3"],
            vec!["a>=1", "c>=5", "b>=4"],
            vec!["a>=2", "c>=5", "b>=3"],
            vec!["a>=2", "c>=5", "b>=4"],
        ]
    );
}

#[test]
fn extras_belong_to_the_group_of_their_package() {
    let mut extra = dependency("a", None, 2);
    extra.package = PubGrubPackage::Extra {
        name: "a".to_string(),
        extra: "e".to_string(),
        marker: None,
        url: None,
    };
    let forks = split_into_forks(&vec![dependency("a", None, 1), extra]);
    assert_eq!(forks.len(), 2);
    assert_eq!(forks[0].len(), 1);
    assert_eq!(forks[1].len(), 1);
}

#[test]
fn one_environment_does_not_fork() {
    let dependencies = vec![dependency("a", Some("x"), 1), dependency("a", Some("y"), 2)];
    let forks = get_dependencies_forking(Dependencies::Available(dependencies), false);
    assert_eq!(forks.len(), 1);
    match &forks[0] {
        Dependencies::Available(fork) => assert_eq!(show(fork), vec!["a>=1", "a>=2"]),
        Dependencies::Unavailable(_) => panic!("the dependencies are available"),
    }
}

#[test]
fn every_environment_forks() {
    let dependencies = vec![dependency("a", Some("x"), 1), dependency("a", Some("y"), 2)];
    let forks = get_dependencies_forking(Dependencies::Available(dependencies), true);
    assert_eq!(forks.len(), 2);
}

#[test]
fn unavailable_dependencies_do_not_fork() {
    let forks =
        get_dependencies_forking(Dependencies::Unavailable(UnavailableVersion::Offline), true);
    assert_eq!(forks.len(), 1);
    assert!(matches!(forks[0], Dependencies::Unavailable(UnavailableVersion::Offline)));
}
