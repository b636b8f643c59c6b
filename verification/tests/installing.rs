use uv_resolver::install::{
    Action, Event, ExitStatus, InstallOptions, Managed, MarkersSource, PipInstall, Requirements,
    SystemPython, TagsSource, Task,
};

fn options() -> InstallOptions {
    InstallOptions {
        system: false,
        break_system_packages: false,
        target: false,
        reinstall: false,
        upgrade: false,
        require_hashes: false,
        no_build_isolation: false,
        strict: false,
        dry_run: false,
        python_platform: false,
        python_version: None,
        uv_lock: None,
    }
}

fn requirements(count: usize) -> Event {
    Event::Requirements(Requirements { count, source_trees: false, overrides: false })
}

/// Performs every task, and notes them.
fn run(options: InstallOptions, requirements: Requirements, fresh: bool) -> (Vec<String>, Action) {
    let mut command = PipInstall::new(options);
    let mut tasks: Vec<String> = Vec::new();
    let mut event = Event::Requirements(requirements);
    loop {
        assert!(command.accepts(&event));
        let task = match command.advance(event) {
            Action::Perform(task) => task,
            end => return (tasks, end),
        };
        let (name, next) = match task {
            Task::ReadRequirements => ("read requirements".to_string(), Event::Done),
            Task::FindEnvironment(system) => (format!("find {system:?}"), Event::Done),
            Task::InitTarget => ("target".to_string(), Event::Done),
            Task::CheckManaged => ("managed".to_string(), Event::Managed(None)),
            Task::Lock => ("lock".to_string(), Event::Done),
            Task::ReadSitePackages => ("site packages".to_string(), Event::Done),
            Task::CheckSatisfied => (
                "satisfied".to_string(),
                if fresh {
                    Event::Fresh { elapsed: "3ms".to_string() }
                } else {
                    Event::Unsatisfied
                },
            ),
            Task::MakeTags(source) => (format!("tags {source:?}"), Event::Done),
            Task::MakeMarkers(source) => {
                (format!("markers {} {}", source.platform, source.version), Event::Done)
            }
            Task::CollectHashes => ("hashes".to_string(), Event::Done),
            Task::PrepareClient => ("client".to_string(), Event::Done),
            Task::FetchFlatIndex => ("flat index".to_string(), Event::Done),
            Task::PrepareDispatch { shared } => (format!("dispatch {shared}"), Event::Done),
            Task::ReadLock(root) => (format!("lockfile {root}"), Event::Done),
            Task::Resolve => ("resolve".to_string(), Event::Done),
            Task::Install { separate_dispatch } => {
                (format!("install {separate_dispatch}"), Event::Done)
            }
            Task::DiagnoseResolution => ("diagnose resolution".to_string(), Event::Done),
            Task::DiagnoseEnvironment => ("diagnose environment".to_string(), Event::Done),
        };
        tasks.push(name);
        event = next;
    }
}

fn plain() -> Requirements {
    Requirements { count: 2, source_trees: false, overrides: false }
}

#[test]
fn a_plain_installation_runs_through() {
    let (tasks, end) = run(options(), plain(), false);
    assert_eq!(
        tasks,
        vec![
            "find Explicit",
            "managed",
            "lock",
            "site packages",
            "satisfied",
            "tags Interpreter",
            "markers false false",
            "client",
            "flat index",
            "dispatch false",
            "resolve",
            "install false",
            "diagnose resolution",
        ]
    );
    match end {
        Action::Exit { messages, status } => {
            assert_eq!(messages.len(), 0);
            assert_eq!(status, ExitStatus::Success);
        }
        _ => panic!("the command succeeds"),
    }
}

#[test]
fn every_option_has_its_task() {
    let mut options = options();
    options.system = true;
    options.target = true;
    options.reinstall = true;
    options.require_hashes = true;
    options.no_build_isolation = true;
    options.strict = true;
    options.python_platform = true;
    options.python_version = Some((3, 11));
    options.uv_lock = Some("root".to_string());
    let (tasks, _) = run(options, plain(), true);
    assert_eq!(
        tasks,
        vec![
            "find Required",
            "target",
            "managed",
            "lock",
            "site packages",
            "tags Environment { requested_platform: true, python_version: Some((3, 11)) }",
            "markers true true",
            "hashes",
            "client",
            "flat index",
            "dispatch true",
            "lockfile root",
            "install true",
            "diagnose resolution",
            "diagnose environment",
        ]
    );
}

#[test]
fn a_dry_run_does_not_diagnose_the_environment() {
    let mut options = options();
    options.strict = true;
    options.dry_run = true;
    let (tasks, _) = run(options, plain(), false);
    assert_eq!(tasks.last().unwrap(), "diagnose resolution");
}

#[test]
fn satisfied_requirements_are_audited() {
    let (tasks, end) = run(options(), plain(), true);
    assert_eq!(tasks.last().unwrap(), "satisfied");
    match end {
        Action::Exit { messages, status } => {
            assert_eq!(
                messages,
                vec!["\u{1b}[2mAudited \u{1b}[1m2 packages\u{1b}[0m in 3ms\u{1b}[0m"]
            );
            assert_eq!(status, ExitStatus::Success);
        }
        _ => panic!("the command succeeds"),
    }
}

#[test]
fn a_single_package_is_audited_in_a_dry_run() {
    let mut options = options();
    options.dry_run = true;
    let one = Requirements { count: 1, source_trees: false, overrides: false };
    match run(options, one, true).1 {
        Action::Exit { messages, .. } => assert_eq!(
            messages,
            vec![
                "\u{1b}[2mAudited \u{1b}[1m1 package\u{1b}[0m in 3ms\u{1b}[0m",
                "Would make no changes",
            ]
        ),
        _ => panic!("the command succeeds"),
    }
}

#[test]
fn requirements_are_not_audited_when_more_is_asked() {
    let check = |options: InstallOptions, requirements: Requirements| {
        !run(options, requirements, true).0.contains(&"satisfied".to_string())
    };
    assert!(!check(options(), plain()));
    assert!(check(InstallOptions { reinstall: true, ..options() }, plain()));
    assert!(check(InstallOptions { upgrade: true, ..options() }, plain()));
    assert!(check(InstallOptions { uv_lock: Some("a".to_string()), ..options() }, plain()));
    assert!(check(options(), Requirements { source_trees: true, ..plain() }));
    assert!(check(options(), Requirements { overrides: true, ..plain() }));
}

#[test]
fn tags_come_from_what_was_asked_for() {
    let tags = |platform: bool, version: Option<(u8, u8)>| {
        let mut command = PipInstall::new(InstallOptions {
            python_platform: platform,
            python_version: version,
            upgrade: true,
            ..options()
        });
        let mut action = command.advance(requirements(1));
        for event in [Event::Done, Event::Managed(None), Event::Done, Event::Done] {
            action = command.advance(event);
        }
        let markers = command.advance(Event::Done);
        (action, markers)
    };
    assert!(matches!(tags(false, None).0, Action::Perform(Task::MakeTags(TagsSource::Interpreter))));
    assert!(matches!(
        tags(true, None),
        (
            Action::Perform(Task::MakeTags(TagsSource::Environment {
                requested_platform: true,
                python_version: None
            })),
            Action::Perform(Task::MakeMarkers(MarkersSource { platform: true, version: false }))
        )
    ));
    assert!(matches!(
        tags(false, Some((3, 8))),
        (
            Action::Perform(Task::MakeTags(TagsSource::Environment {
                requested_platform: false,
                python_version: Some((3, 8))
            })),
            Action::Perform(Task::MakeMarkers(MarkersSource { platform: false, version: true }))
        )
    ));
}

#[test]
fn managed_environments_are_left_alone() {
    let managed = |error: Option<&str>, insist: bool| {
        let mut command =
            PipInstall::new(InstallOptions { break_system_packages: insist, ..options() });
        assert!(matches!(
            command.advance(requirements(1)),
            Action::Perform(Task::FindEnvironment(SystemPython::Explicit))
        ));
        command.advance(Event::Done);
        command.advance(Event::Managed(Some(Managed {
            root: "/usr".to_string(),
            error: error.map(|error| error.to_string()),
        })))
    };
    match managed(Some("One.\n\nTwo."), false) {
        Action::Abort(text) => assert_eq!(
            text,
            "The interpreter at \u{1b}[36m/usr\u{1b}[39m is externally managed, and indicates the \
             following:\n\n\u{1b}[32m  One.\n\n  Two.\u{1b}[39m\n\nConsider creating a virtual \
             environment with `uv venv`."
        ),
        _ => panic!("the environment is managed"),
    }
    match managed(None, false) {
        Action::Abort(text) => assert_eq!(
            text,
            "The interpreter at \u{1b}[36m/usr\u{1b}[39m is externally managed. Instead, create a \
             virtual environment with `uv venv`."
        ),
        _ => panic!("the environment is managed"),
    }
    assert!(matches!(managed(None, true), Action::Perform(Task::Lock)));
}

#[test]
fn no_solution_is_a_failure() {
    let mut command = PipInstall::new(InstallOptions { upgrade: true, ..options() });
    let mut action = command.advance(requirements(1));
    let mut event = Event::Done;
    while !matches!(action, Action::Perform(Task::Resolve)) {
        if matches!(action, Action::Perform(Task::CheckManaged)) {
            event = Event::Managed(None);
        }
        action = command.advance(event);
        event = Event::Done;
    }
    match command.advance(Event::NoSolution("a conflicts with b".to_string())) {
        Action::Unsolvable { heading, reason, status } => {
            assert_eq!(heading, "No solution found when resolving dependencies:");
            assert_eq!(reason, "a conflicts with b");
            assert_eq!(status, ExitStatus::Failure);
        }
        _ => panic!("there is no solution"),
    }
    assert!(!command.accepts(&Event::Done));
}

#[test]
fn a_failed_task_ends_the_command() {
    let mut command = PipInstall::new(options());
    assert!(!command.accepts(&Event::Done));
    match command.advance(Event::Failed("no such file".to_string())) {
        Action::Abort(text) => assert_eq!(text, "no such file"),
        _ => panic!("the task failed"),
    }
    assert!(!command.accepts(&Event::Failed("again".to_string())));
}
