use vstd::prelude::*;
use vstd::string::StringExecFns;

use crate::style::{bold, cyan, dimmed, green, indent, indented, styled};
use crate::text::{decimal, usize_to_string};

verus! {

/// How a system-wide Python interpreter may be used.
#[derive(Clone, Copy, Debug, PartialEq, Eq, Structural, Hash)]
pub enum SystemPython {
    /// Only a system interpreter will do.
    Required,
    /// A system interpreter will do if it was asked for.
    Explicit,
}

/// How the command ends.
#[derive(Clone, Copy, Debug, PartialEq, Eq, Structural, Hash)]
pub enum ExitStatus {
    /// The command succeeded.
    Success,
    /// The command failed due to an error in the user input.
    Failure,
}

/// What the user asked for, as far as it decides what is done.
pub struct InstallOptions {
    /// Install into the system Python.
    pub system: bool,
    /// Modify an externally managed interpreter.
    pub break_system_packages: bool,
    /// Install into a directory of its own.
    pub target: bool,
    /// Reinstall packages.
    pub reinstall: bool,
    /// Upgrade packages.
    pub upgrade: bool,
    /// Require a hash for each requirement.
    pub require_hashes: bool,
    /// Build source distributions in the environment itself.
    pub no_build_isolation: bool,
    /// Validate the environment after the installation.
    pub strict: bool,
    /// Only say what would be done.
    pub dry_run: bool,
    /// Resolve for a platform other than that of the interpreter.
    pub python_platform: bool,
    /// Resolve for a Python version other than that of the interpreter.
    pub python_version: Option<(u8, u8)>,
    /// Install a package from the lockfile, in place of a resolution.
    pub uv_lock: Option<String>,
}

/// The requirements that were read.
#[derive(Clone, Copy, Debug, PartialEq, Eq, Structural)]
pub struct Requirements {
    /// How many requirements there are.
    pub count: usize,
    /// Whether there are source trees among the sources.
    pub source_trees: bool,
    /// Whether there are overrides.
    pub overrides: bool,
}

/// What the platform tags are made from.
#[derive(Clone, Copy, Debug, PartialEq, Eq)]
pub enum TagsSource {
    /// The interpreter.
    Interpreter,
    /// The platform that was asked for or else that of the interpreter, and the Python version
    /// that was asked for or else that of the interpreter.
    Environment { requested_platform: bool, python_version: Option<(u8, u8)> },
}

/// How the marker environment of the interpreter is changed: first to the platform that was asked
/// for, then to the Python version that was asked for.
#[derive(Clone, Copy, Debug, PartialEq, Eq, Structural)]
pub struct MarkersSource {
    pub platform: bool,
    pub version: bool,
}

/// Something that is to be done next.
pub enum Task {
    /// Read all requirements from the provided sources.
    ReadRequirements,
    /// Detect the current Python interpreter.
    FindEnvironment(SystemPython),
    /// Apply the `--target` directory.
    InitTarget,
    /// See whether the environment is externally managed.
    CheckManaged,
    /// Lock the environment.
    Lock,
    /// Determine the set of installed packages.
    ReadSitePackages,
    /// Check if the current environment satisfies the requirements.
    CheckSatisfied,
    /// Determine the tags to use for resolution.
    MakeTags(TagsSource),
    /// Determine the markers to use for resolution.
    MakeMarkers(MarkersSource),
    /// Collect the set of required hashes, of requirements and of overrides.
    CollectHashes,
    /// Combine the index locations, store their credentials and initialize the registry client.
    PrepareClient,
    /// Resolve the flat indexes from `--find-links`.
    FetchFlatIndex,
    /// Create a build dispatch for resolution, in the environment itself or in isolation.
    PrepareDispatch { shared: bool },
    /// Read the resolution of a package from the lockfile.
    ReadLock(String),
    /// Resolve the requirements.
    Resolve,
    /// Sync the environment, with a separate build dispatch if distributions may be removed.
    Install { separate_dispatch: bool },
    /// Notify the user of any resolution diagnostics.
    DiagnoseResolution,
    /// Notify the user of any environment diagnostics.
    DiagnoseEnvironment,
}

/// What comes of a task.
pub enum Event {
    /// It is done.
    Done,
    /// The requirements were read.
    Requirements(Requirements),
    /// The environment is externally managed or not.
    Managed(Option<Managed>),
    /// The environment satisfies the requirements, as was found in the given time.
    Fresh { elapsed: String },
    /// The environment does not satisfy the requirements.
    Unsatisfied,
    /// There is no solution, for a reason.
    NoSolution(String),
    /// The task failed.
    Failed(String),
}

/// An externally managed environment.
pub struct Managed {
    /// Where the environment is.
    pub root: String,
    /// What the environment says about it.
    pub error: Option<String>,
}

/// What the command does next.
pub enum Action {
    /// Perform a task.
    Perform(Task),
    /// Print each message on a line, and end.
    Exit { messages: Vec<String>, status: ExitStatus },
    /// Report why there is no solution, under a heading, and end.
    Unsolvable { heading: String, reason: String, status: ExitStatus },
    /// End with an error.
    Abort(String),
}

/// What an [`Action`] says.
pub enum ActionView {
    Perform(TaskView),
    Exit { messages: Seq<Seq<char>>, status: ExitStatus },
    Unsolvable { heading: Seq<char>, reason: Seq<char>, status: ExitStatus },
    Abort(Seq<char>),
}

/// What a [`Task`] says.
pub enum TaskView {
    ReadRequirements,
    FindEnvironment(SystemPython),
    InitTarget,
    CheckManaged,
    Lock,
    ReadSitePackages,
    CheckSatisfied,
    MakeTags(TagsSource),
    MakeMarkers(MarkersSource),
    CollectHashes,
    PrepareClient,
    FetchFlatIndex,
    PrepareDispatch { shared: bool },
    ReadLock(Seq<char>),
    Resolve,
    Install { separate_dispatch: bool },
    DiagnoseResolution,
    DiagnoseEnvironment,
}

impl View for Task {
    type V = TaskView;

    open spec fn view(&self) -> TaskView {
        match self {
            Task::ReadRequirements => TaskView::ReadRequirements,
            Task::FindEnvironment(system) => TaskView::FindEnvironment(*system),
            Task::InitTarget => TaskView::InitTarget,
            Task::CheckManaged => TaskView::CheckManaged,
            Task::Lock => TaskView::Lock,
            Task::ReadSitePackages => TaskView::ReadSitePackages,
            Task::CheckSatisfied => TaskView::CheckSatisfied,
            Task::MakeTags(source) => TaskView::MakeTags(*source),
            Task::MakeMarkers(source) => TaskView::MakeMarkers(*source),
            Task::CollectHashes => TaskView::CollectHashes,
            Task::PrepareClient => TaskView::PrepareClient,
            Task::FetchFlatIndex => TaskView::FetchFlatIndex,
            Task::PrepareDispatch { shared } => TaskView::PrepareDispatch { shared: *shared },
            Task::ReadLock(root) => TaskView::ReadLock(root@),
            Task::Resolve => TaskView::Resolve,
            Task::Install { separate_dispatch } => TaskView::Install {
                separate_dispatch: *separate_dispatch,
            },
            Task::DiagnoseResolution => TaskView::DiagnoseResolution,
            Task::DiagnoseEnvironment => TaskView::DiagnoseEnvironment,
        }
    }
}

/// The lines, as they are written.
pub open spec fn lines(messages: Seq<String>) -> Seq<Seq<char>> {
    messages.map_values(|message: String| message@)
}

impl View for Action {
    type V = ActionView;

    open spec fn view(&self) -> ActionView {
        match self {
            Action::Perform(task) => ActionView::Perform(task@),
            Action::Exit { messages, status } => ActionView::Exit {
                messages: lines(messages@),
                status: *status,
            },
            Action::Unsolvable { heading, reason, status } => ActionView::Unsolvable {
                heading: heading@,
                reason: reason@,
                status: *status,
            },
            Action::Abort(text) => ActionView::Abort(text@),
        }
    }
}

/// How far the command is: the task that is being performed, or that it ended.
#[derive(Clone, Copy, Debug, PartialEq, Eq, Structural)]
pub enum Stage {
    Requirements,
    Environment,
    Target,
    Managed,
    Lock,
    SitePackages,
    Satisfied,
    Tags,
    Markers,
    Hashes,
    Client,
    FlatIndex,
    Dispatch,
    ReadLock,
    Resolve,
    Install,
    DiagnoseResolution,
    DiagnoseEnvironment,
    Ended,
}

/// Installs packages into the current environment.
pub struct PipInstall {
    options: InstallOptions,
    requirements: Requirements,
    stage: Stage,
}

/// What a [`PipInstall`] holds.
pub struct InstallView {
    pub options: InstallOptions,
    pub requirements: Requirements,
    pub stage: Stage,
}

impl View for PipInstall {
    type V = InstallView;

    closed spec fn view(&self) -> InstallView {
        InstallView {
            options: self.options,
            requirements: self.requirements,
            stage: self.stage,
        }
    }
}

/// What is said of an externally managed environment.
pub open spec fn managed_text(root: Seq<char>, error: Option<Seq<char>>) -> Seq<char> {
    let place = "The interpreter at "@ + styled("\x1b[36m"@, root, "\x1b[39m"@);
    match error {
        Some(error) => place + " is externally managed, and indicates the following:\n\n"@ + styled(
            "\x1b[32m"@,
            indented(error, "  "@),
            "\x1b[39m"@,
        ) + "\n\nConsider creating a virtual environment with `uv venv`."@,
        None => place
            + " is externally managed. Instead, create a virtual environment with `uv venv`."@,
    }
}

/// What is said of requirements that are already satisfied.
pub open spec fn audit_text(count: usize, elapsed: Seq<char>) -> Seq<char> {
    let packages = decimal(count as nat) + if count == 1 {
        " package"@
    } else {
        " packages"@
    };
    styled(
        "\x1b[2m"@,
        "Audited "@ + styled("\x1b[1m"@, packages, "\x1b[0m"@) + " in "@ + elapsed,
        "\x1b[0m"@,
    )
}

/// What is said of an externally managed environment.
fn managed_message(managed: &Managed) -> (text: String)
    ensures
        text@ == managed_text(
            managed.root@,
            match managed.error {
                Some(error) => Some(error@),
                None => None,
            },
        ),
{
    let root = cyan(managed.root.as_str());
    let text = "The interpreter at ".to_owned().concat(root.as_str());
    match &managed.error {
        Some(error) => {
            let lines = indent(error.as_str(), "  ");
            let lines = green(lines.as_str());
            let text = text.concat(" is externally managed, and indicates the following:\n\n");
            let text = text.concat(lines.as_str());
            text.concat("\n\nConsider creating a virtual environment with `uv venv`.")
        },
        None => {
            text.concat(
                " is externally managed. Instead, create a virtual environment with `uv venv`.",
            )
        },
    }
}

/// What is said of requirements that are already satisfied.
fn audit_message(count: usize, elapsed: &String) -> (text: String)
    ensures
        text@ == audit_text(count, elapsed@),
{
    let noun = if count == 1 {
        " package"
    } else {
        " packages"
    };
    let packages = usize_to_string(count).concat(noun);
    let packages = bold(packages.as_str());
    let text = "Audited ".to_owned().concat(packages.as_str()).concat(" in ");
    let text = text.concat(elapsed.as_str());
    dimmed(text.as_str())
}

impl InstallView {
    /// The command at another stage, with its next action.
    pub open spec fn goes_on(self, stage: Stage, task: TaskView) -> (InstallView, ActionView) {
        (InstallView { stage, ..self }, ActionView::Perform(task))
    }

    /// The command ended.
    pub open spec fn ends(self, action: ActionView) -> (InstallView, ActionView) {
        (InstallView { stage: Stage::Ended, ..self }, action)
    }

    /// Whether it is worth checking if the environment satisfies the requirements: nothing asks
    /// for more than that.
    pub open spec fn may_be_satisfied(self) -> bool {
        &&& !self.options.reinstall
        &&& !self.options.upgrade
        &&& !self.requirements.source_trees
        &&& !self.requirements.overrides
        &&& self.options.uv_lock is None
    }

    /// Go on with the tags.
    pub open spec fn make_tags(self) -> (InstallView, ActionView) {
        let source = if self.options.python_platform || self.options.python_version is Some {
            TagsSource::Environment {
                requested_platform: self.options.python_platform,
                python_version: self.options.python_version,
            }
        } else {
            TagsSource::Interpreter
        };
        self.goes_on(Stage::Tags, TaskView::MakeTags(source))
    }

    /// What the command does with what came of the task that is being performed. A task that failed
    /// ends it with the error.
    pub open spec fn advance(self, event: Event) -> (InstallView, ActionView) {
        match (self.stage, event) {
            (_, Event::Failed(text)) => self.ends(ActionView::Abort(text@)),
            (Stage::Requirements, Event::Requirements(requirements)) => InstallView {
                requirements,
                ..self
            }.goes_on(
                Stage::Environment,
                TaskView::FindEnvironment(
                    if self.options.system {
                        SystemPython::Required
                    } else {
                        SystemPython::Explicit
                    },
                ),
            ),
            (Stage::Environment, Event::Done) => if self.options.target {
                self.goes_on(Stage::Target, TaskView::InitTarget)
            } else {
                self.goes_on(Stage::Managed, TaskView::CheckManaged)
            },
            (Stage::Target, Event::Done) => self.goes_on(Stage::Managed, TaskView::CheckManaged),
            (Stage::Managed, Event::Managed(managed)) => if managed is Some
                && !self.options.break_system_packages {
                self.ends(
                    ActionView::Abort(
                        managed_text(
                            (managed->0).root@,
                            match (managed->0).error {
                                Some(error) => Some(error@),
                                None => None,
                            },
                        ),
                    ),
                )
            } else {
                self.goes_on(Stage::Lock, TaskView::Lock)
            },
            (Stage::Lock, Event::Done) => self.goes_on(
                Stage::SitePackages,
                TaskView::ReadSitePackages,
            ),
            (Stage::SitePackages, Event::Done) => if self.may_be_satisfied() {
                self.goes_on(Stage::Satisfied, TaskView::CheckSatisfied)
            } else {
                self.make_tags()
            },
            (Stage::Satisfied, Event::Fresh { elapsed }) => self.ends(
                ActionView::Exit {
                    messages: if self.options.dry_run {
                        seq![
                            audit_text(self.requirements.count, elapsed@),
                            "Would make no changes"@,
                        ]
                    } else {
                        seq![audit_text(self.requirements.count, elapsed@)]
                    },
                    status: ExitStatus::Success,
                },
            ),
            (Stage::Satisfied, Event::Unsatisfied) => self.make_tags(),
            (Stage::Tags, Event::Done) => self.goes_on(
                Stage::Markers,
                TaskView::MakeMarkers(
                    MarkersSource {
                        platform: self.options.python_platform,
                        version: self.options.python_version is Some,
                    },
                ),
            ),
            (Stage::Markers, Event::Done) => if self.options.require_hashes {
                self.goes_on(Stage::Hashes, TaskView::CollectHashes)
            } else {
                self.goes_on(Stage::Client, TaskView::PrepareClient)
            },
            (Stage::Hashes, Event::Done) => self.goes_on(Stage::Client, TaskView::PrepareClient),
            (Stage::Client, Event::Done) => self.goes_on(
                Stage::FlatIndex,
                TaskView::FetchFlatIndex,
            ),
            (Stage::FlatIndex, Event::Done) => self.goes_on(
                Stage::Dispatch,
                TaskView::PrepareDispatch { shared: self.options.no_build_isolation },
            ),
            (Stage::Dispatch, Event::Done) => match self.options.uv_lock {
                Some(root) => self.goes_on(Stage::ReadLock, TaskView::ReadLock(root@)),
                None => self.goes_on(Stage::Resolve, TaskView::Resolve),
            },
            (Stage::ReadLock, Event::Done) => self.goes_on(
                Stage::Install,
                TaskView::Install { separate_dispatch: self.options.reinstall },
            ),
            (Stage::Resolve, Event::Done) => self.goes_on(
                Stage::Install,
                TaskView::Install { separate_dispatch: self.options.reinstall },
            ),
            (Stage::Resolve, Event::NoSolution(reason)) => self.ends(
                ActionView::Unsolvable {
                    heading: "No solution found when resolving dependencies:"@,
                    reason: reason@,
                    status: ExitStatus::Failure,
                },
            ),
            (Stage::Install, Event::Done) => self.goes_on(
                Stage::DiagnoseResolution,
                TaskView::DiagnoseResolution,
            ),
            (Stage::DiagnoseResolution, Event::Done) => if self.options.strict
                && !self.options.dry_run {
                self.goes_on(Stage::DiagnoseEnvironment, TaskView::DiagnoseEnvironment)
            } else {
                self.succeeds()
            },
            _ => self.succeeds(),
        }
    }

    /// The command succeeded.
    pub open spec fn succeeds(self) -> (InstallView, ActionView) {
        self.ends(ActionView::Exit { messages: Seq::empty(), status: ExitStatus::Success })
    }

    /// Whether the event can come of the task that is being performed.
    pub open spec fn expects(self, event: Event) -> bool {
        match (self.stage, event) {
            (Stage::Ended, _) => false,
            (_, Event::Failed(_)) => true,
            (Stage::Requirements, Event::Requirements(_)) => true,
            (Stage::Requirements, _) => false,
            (Stage::Managed, Event::Managed(_)) => true,
            (Stage::Managed, _) => false,
            (Stage::Satisfied, Event::Fresh { .. }) => true,
            (Stage::Satisfied, Event::Unsatisfied) => true,
            (Stage::Satisfied, _) => false,
            (Stage::Resolve, Event::NoSolution(_)) => true,
            (_, Event::Done) => true,
            _ => false,
        }
    }

    /// The command before anything was done.
    pub open spec fn start(options: InstallOptions) -> InstallView {
        InstallView {
            options,
            requirements: Requirements { count: 0, source_trees: false, overrides: false },
            stage: Stage::Requirements,
        }
    }
}

impl PipInstall {
    /// Start to install packages. The first task is to read the requirements.
    pub fn new(options: InstallOptions) -> (command: PipInstall)
        ensures
            command@ == InstallView::start(options),
    {
        let requirements = Requirements { count: 0, source_trees: false, overrides: false };
        PipInstall { options, requirements, stage: Stage::Requirements }
    }

    /// Go on with a task.
    fn goes_on(&mut self, stage: Stage, task: Task) -> (action: Action)
        ensures
            (final(self)@, action@) == old(self)@.goes_on(stage, task@),
    {
        self.stage = stage;
        Action::Perform(task)
    }

    /// End.
    fn ends(&mut self, action: Action) -> (ended: Action)
        ensures
            (final(self)@, ended@) == old(self)@.ends(action@),
    {
        self.stage = Stage::Ended;
        action
    }

    /// End with success.
    fn succeeds(&mut self) -> (action: Action)
        ensures
            (final(self)@, action@) == old(self)@.succeeds(),
    {
        let messages: Vec<String> = Vec::new();
        assert(lines(messages@) =~= Seq::empty());
        self.ends(Action::Exit { messages, status: ExitStatus::Success })
    }

    /// Determine the tags, markers, and interpreter to use for resolution.
    fn make_tags(&mut self) -> (action: Action)
        ensures
            (final(self)@, action@) == old(self)@.make_tags(),
    {
        let source = if self.options.python_platform || self.options.python_version.is_some() {
            TagsSource::Environment {
                requested_platform: self.options.python_platform,
                python_version: self.options.python_version,
            }
        } else {
            TagsSource::Interpreter
        };
        self.goes_on(Stage::Tags, Task::MakeTags(source))
    }

    /// Whether the event can come of the task that is being performed.
    pub fn accepts(&self, event: &Event) -> (accepted: bool)
        ensures
            accepted == self@.expects(*event),
    {
        match (self.stage, event) {
            (Stage::Ended, _) => false,
            (_, Event::Failed(_)) => true,
            (Stage::Requirements, Event::Requirements(_)) => true,
            (Stage::Requirements, _) => false,
            (Stage::Managed, Event::Managed(_)) => true,
            (Stage::Managed, _) => false,
            (Stage::Satisfied, Event::Fresh { .. }) => true,
            (Stage::Satisfied, Event::Unsatisfied) => true,
            (Stage::Satisfied, _) => false,
            (Stage::Resolve, Event::NoSolution(_)) => true,
            (_, Event::Done) => true,
            _ => false,
        }
    }

    /// Go on with what came of the last task.
    pub fn advance(&mut self, event: Event) -> (action: Action)
        requires
            old(self)@.expects(event),
        ensures
            (final(self)@, action@) == old(self)@.advance(event),
    {
        match (self.stage, event) {
            (_, Event::Failed(text)) => self.ends(Action::Abort(text)),
            (Stage::Requirements, Event::Requirements(requirements)) => {
                self.requirements = requirements;
                // Detect the current Python interpreter.
                let system = if self.options.system {
                    SystemPython::Required
                } else {
                    SystemPython::Explicit
                };
                self.goes_on(Stage::Environment, Task::FindEnvironment(system))
            },
            (Stage::Environment, _) => {
                // Apply any `--target` directory.
                if self.options.target {
                    self.goes_on(Stage::Target, Task::InitTarget)
                } else {
                    self.goes_on(Stage::Managed, Task::CheckManaged)
                }
            },
            (Stage::Target, _) => self.goes_on(Stage::Managed, Task::CheckManaged),
            (Stage::Managed, Event::Managed(managed)) => {
                // If the environment is externally managed, abort.
                if let Some(managed) = managed {
                    if !self.options.break_system_packages {
                        let text = managed_message(&managed);
                        return self.ends(Action::Abort(text));
                    }
                }
                self.goes_on(Stage::Lock, Task::Lock)
            },
            (Stage::Lock, _) => self.goes_on(Stage::SitePackages, Task::ReadSitePackages),
            (Stage::SitePackages, _) => {
                // Check if the current environment satisfies the requirements. For large
                // environments, it's an order of magnitude faster to validate the environment than
                // to resolve the requirements.
                if !self.options.reinstall && !self.options.upgrade
                    && !self.requirements.source_trees && !self.requirements.overrides
                    && self.options.uv_lock.is_none() {
                    self.goes_on(Stage::Satisfied, Task::CheckSatisfied)
                } else {
                    self.make_tags()
                }
            },
            (Stage::Satisfied, Event::Fresh { elapsed }) => {
                // If the requirements are already satisfied, we're done.
                let mut messages: Vec<String> = Vec::new();
                messages.push(audit_message(self.requirements.count, &elapsed));
                if self.options.dry_run {
                    messages.push("Would make no changes".to_owned());
                    assert(lines(messages@) =~= seq![
                        audit_text(self.requirements.count, elapsed@),
                        "Would make no changes"@,
                    ]);
                } else {
                    assert(lines(messages@) =~= seq![
                        audit_text(self.requirements.count, elapsed@),
                    ]);
                }
                self.ends(Action::Exit { messages, status: ExitStatus::Success })
            },
            (Stage::Satisfied, _) => self.make_tags(),
            (Stage::Tags, _) => {
                // Apply the platform tags to the markers.
                let source = MarkersSource {
                    platform: self.options.python_platform,
                    version: self.options.python_version.is_some(),
                };
                self.goes_on(Stage::Markers, Task::MakeMarkers(source))
            },
            (Stage::Markers, _) => {
                // Collect the set of required hashes.
                if self.options.require_hashes {
                    self.goes_on(Stage::Hashes, Task::CollectHashes)
                } else {
                    self.goes_on(Stage::Client, Task::PrepareClient)
                }
            },
            (Stage::Hashes, _) => self.goes_on(Stage::Client, Task::PrepareClient),
            (Stage::Client, _) => self.goes_on(Stage::FlatIndex, Task::FetchFlatIndex),
            (Stage::FlatIndex, _) => {
                // Determine whether to enable build isolation.
                let shared = self.options.no_build_isolation;
                self.goes_on(Stage::Dispatch, Task::PrepareDispatch { shared })
            },
            (Stage::Dispatch, _) => {
                // Resolve the requirements.
                match &self.options.uv_lock {
                    Some(root) => {
                        let root = root.clone();
                        self.goes_on(Stage::ReadLock, Task::ReadLock(root))
                    },
                    None => self.goes_on(Stage::Resolve, Task::Resolve),
                }
            },
            (Stage::Resolve, Event::NoSolution(reason)) => {
                let heading = "No solution found when resolving dependencies:".to_owned();
                let status = ExitStatus::Failure;
                self.ends(Action::Unsolvable { heading, reason, status })
            },
            (Stage::ReadLock, _) | (Stage::Resolve, _) => {
                // If we're running with `--reinstall`, initialize a separate dispatch, since we
                // may end up removing some distributions from the environment.
                let separate_dispatch = self.options.reinstall;
                self.goes_on(Stage::Install, Task::Install { separate_dispatch })
            },
            (Stage::Install, _) => {
                self.goes_on(Stage::DiagnoseResolution, Task::DiagnoseResolution)
            },
            (Stage::DiagnoseResolution, _) => {
                // Notify the user of any environment diagnostics.
                if self.options.strict && !self.options.dry_run {
                    self.goes_on(Stage::DiagnoseEnvironment, Task::DiagnoseEnvironment)
                } else {
                    self.succeeds()
                }
            },
            _ => self.succeeds(),
        }
    }
}

/// The place of a stage in the course of the command.
pub open spec fn place(stage: Stage) -> int {
    match stage {
        Stage::Requirements => 0,
        Stage::Environment => 1,
        Stage::Target => 2,
        Stage::Managed => 3,
        Stage::Lock => 4,
        Stage::SitePackages => 5,
        Stage::Satisfied => 6,
        Stage::Tags => 7,
        Stage::Markers => 8,
        Stage::Hashes => 9,
        Stage::Client => 10,
        Stage::FlatIndex => 11,
        Stage::Dispatch => 12,
        Stage::ReadLock => 13,
        Stage::Resolve => 13,
        Stage::Install => 14,
        Stage::DiagnoseResolution => 15,
        Stage::DiagnoseEnvironment => 16,
        Stage::Ended => 17,
    }
}

/// The command always comes to an end, and performs no task twice: each event takes it further.
pub proof fn law_the_command_ends(command: InstallView, event: Event)
    requires
        command.expects(event),
    ensures
        place(command.stage) < place(command.advance(event).0.stage) <= place(Stage::Ended),
{
}

/// The command ended exactly if there is no further task.
pub proof fn law_every_stage_but_the_end_has_a_task(command: InstallView, event: Event)
    requires
        command.expects(event),
    ensures
        command.advance(event).1 is Perform <==> command.advance(event).0.stage != Stage::Ended,
{
}

/// Nothing is read from or done to the environment before it is locked: what comes before the lock
/// goes no further than to the lock.
pub proof fn law_the_environment_is_locked_first(command: InstallView, event: Event)
    requires
        command.expects(event),
        place(command.stage) < place(Stage::Lock),
    ensures
        ({
            let stage = command.advance(event).0.stage;
            stage == Stage::Ended || place(stage) <= place(Stage::Lock)
        }),
{
}

/// Packages are only installed once there is a resolution: from the lockfile or from the resolver.
pub proof fn law_installation_follows_a_resolution(command: InstallView, event: Event)
    requires
        command.expects(event),
        command.advance(event).1 is Perform,
        command.advance(event).1->Perform_0 is Install,
    ensures
        event is Done,
        command.stage == Stage::ReadLock || command.stage == Stage::Resolve,
{
}

/// An externally managed environment is left alone, unless the user insists.
pub proof fn law_managed_environments_are_left_alone(command: InstallView, managed: Managed)
    requires
        command.stage == Stage::Managed,
        !command.options.break_system_packages,
    ensures
        command.advance(Event::Managed(Some(managed))).1 is Abort,
{
}

/// What the user chose and what was read stay as they are once the requirements are there.
pub proof fn law_choices_stay(command: InstallView, event: Event)
    requires
        command.expects(event),
    ensures
        command.advance(event).0.options == command.options,
        !(event is Requirements) ==> command.advance(event).0.requirements == command.requirements,
{
}

/// Whether the command goes on with the task, at the stage.
pub open spec fn goes_on_with(
    command: InstallView,
    event: Event,
    task: TaskView,
    stage: Stage,
) -> bool {
    command.advance(event).1 == ActionView::Perform(task) && command.advance(event).0.stage == stage
}

/// Whether the command goes on with a task of the kind, which `is_one` tells.
pub open spec fn goes_on_with_one(
    command: InstallView,
    event: Event,
    is_one: spec_fn(TaskView) -> bool,
) -> bool {
    command.advance(event).1 matches ActionView::Perform(task) && is_one(task)
}

/// Once the requirements are read, they are kept as they are and an interpreter is looked for,
/// which has to be that of the system exactly if the user asked for it. It is looked for at no other
/// time.
pub proof fn law_the_interpreter_is_found_first(command: InstallView, event: Event)
    requires
        command.expects(event),
    ensures
        goes_on_with_one(command, event, |task: TaskView| task is FindEnvironment)
            <==> command.stage == Stage::Requirements && event is Requirements,
        event matches Event::Requirements(requirements) ==> {
            let system = if command.options.system {
                SystemPython::Required
            } else {
                SystemPython::Explicit
            };
            &&& goes_on_with(
                command,
                event,
                TaskView::FindEnvironment(system),
                Stage::Environment,
            )
            &&& command.advance(event).0.requirements == requirements
        },
{
}

/// The `--target` directory is applied exactly if one was given, once the environment was found and
/// at no other time, whatever the other options are. What follows is the same either way.
pub proof fn law_the_target_directory_is_applied(command: InstallView, event: Event)
    requires
        command.expects(event),
    ensures
        goes_on_with_one(command, event, |task: TaskView| task is InitTarget) <==> command.stage
            == Stage::Environment && event is Done && command.options.target,
        command.stage == Stage::Environment && event is Done && command.options.target
            ==> goes_on_with(command, event, TaskView::InitTarget, Stage::Target),
        command.stage == Stage::Environment && event is Done && !command.options.target
            ==> goes_on_with(command, event, TaskView::CheckManaged, Stage::Managed),
        command.stage == Stage::Target && event is Done ==> goes_on_with(
            command,
            event,
            TaskView::CheckManaged,
            Stage::Managed,
        ),
{
}

/// Whether the environment is externally managed is always checked, before it is locked. It is
/// locked exactly if it is not, or if the user insists, whatever the other options are. Otherwise
/// the command ends with an error that says so.
pub proof fn law_the_environment_is_checked_and_locked(command: InstallView, event: Event)
    requires
        command.expects(event),
    ensures
        goes_on_with_one(command, event, |task: TaskView| task is CheckManaged) <==> event is Done
            && (command.stage == Stage::Target || (command.stage == Stage::Environment
            && !command.options.target)),
        goes_on_with_one(command, event, |task: TaskView| task is Lock) <==> (event matches
            Event::Managed(managed) && (managed is None
            || command.options.break_system_packages)),
        event matches Event::Managed(managed) ==> (managed is None
            || command.options.break_system_packages) ==> goes_on_with(
            command,
            event,
            TaskView::Lock,
            Stage::Lock,
        ),
        event matches Event::Managed(Some(managed)) ==> !command.options.break_system_packages
            ==> command.advance(event).1 == ActionView::Abort(
            managed_text(
                managed.root@,
                match managed.error {
                    Some(error) => Some(error@),
                    None => None,
                },
            ),
        ),
{
}

/// The installed packages are read right after the environment is locked, and at no other time.
pub proof fn law_site_packages_are_read_once(command: InstallView, event: Event)
    requires
        command.expects(event),
    ensures
        goes_on_with_one(command, event, |task: TaskView| task is ReadSitePackages)
            <==> command.stage == Stage::Lock && event is Done,
        command.stage == Stage::Lock && event is Done ==> goes_on_with(
            command,
            event,
            TaskView::ReadSitePackages,
            Stage::SitePackages,
        ),
{
}

/// Whether the requirements are already satisfied is checked exactly if nothing has to be
/// reinstalled or upgraded, there are no source trees and no overrides, and no lockfile is used,
/// whatever the other options are. Otherwise the command goes on as if they were not.
pub proof fn law_satisfied_requirements_are_looked_for(command: InstallView, event: Event)
    requires
        command.expects(event),
    ensures
        ({
            let worthwhile = !command.options.reinstall && !command.options.upgrade
                && !command.requirements.source_trees && !command.requirements.overrides
                && command.options.uv_lock is None;
            &&& goes_on_with_one(command, event, |task: TaskView| task is CheckSatisfied)
                <==> command.stage == Stage::SitePackages && event is Done && worthwhile
            &&& command.stage == Stage::SitePackages && event is Done && worthwhile
                ==> goes_on_with(command, event, TaskView::CheckSatisfied, Stage::Satisfied)
            &&& goes_on_with_one(command, event, |task: TaskView| task is MakeTags) <==> (
            command.stage == Stage::SitePackages && event is Done && !worthwhile) || (command.stage
                == Stage::Satisfied && event is Unsatisfied)
        }),
{
}

/// If the requirements are already satisfied, the command ends with success. It says how many were
/// audited, and in a dry run also that nothing would change.
pub proof fn law_satisfied_requirements_end_the_command(command: InstallView, elapsed: String)
    requires
        command.stage == Stage::Satisfied,
    ensures
        command.advance(Event::Fresh { elapsed }).1 matches ActionView::Exit { messages, status }
            && {
            &&& status == ExitStatus::Success
            &&& messages.len() == if command.options.dry_run {
                2int
            } else {
                1int
            }
            &&& messages[0] == audit_text(command.requirements.count, elapsed@)
            &&& command.options.dry_run ==> messages[1] == "Would make no changes"@
        },
{
}

/// The tags are those of the interpreter exactly if neither a platform nor a Python version was
/// asked for. Otherwise they are made from what was asked for.
pub proof fn law_tags_follow_what_was_asked_for(command: InstallView, event: Event)
    requires
        command.expects(event),
        goes_on_with_one(command, event, |task: TaskView| task is MakeTags),
    ensures
        ({
            let asked = command.options.python_platform || command.options.python_version is Some;
            &&& !asked ==> goes_on_with(
                command,
                event,
                TaskView::MakeTags(TagsSource::Interpreter),
                Stage::Tags,
            )
            &&& asked ==> goes_on_with(
                command,
                event,
                TaskView::MakeTags(
                    TagsSource::Environment {
                        requested_platform: command.options.python_platform,
                        python_version: command.options.python_version,
                    },
                ),
                Stage::Tags,
            )
        }),
{
}

/// The markers follow the tags, always. They are changed to the platform exactly if one was asked
/// for, and to the Python version exactly if one was asked for.
pub proof fn law_markers_follow_what_was_asked_for(command: InstallView, event: Event)
    requires
        command.expects(event),
    ensures
        goes_on_with_one(command, event, |task: TaskView| task is MakeMarkers) <==> command.stage
            == Stage::Tags && event is Done,
        command.stage == Stage::Tags && event is Done ==> goes_on_with(
            command,
            event,
            TaskView::MakeMarkers(
                MarkersSource {
                    platform: command.options.python_platform,
                    version: command.options.python_version is Some,
                },
            ),
            Stage::Markers,
        ),
{
}

/// Hashes are collected exactly if they are required, whatever the other options are, and before
/// the client is prepared, which it always is.
pub proof fn law_hashes_are_collected_if_required(command: InstallView, event: Event)
    requires
        command.expects(event),
    ensures
        goes_on_with_one(command, event, |task: TaskView| task is CollectHashes) <==> command.stage
            == Stage::Markers && event is Done && command.options.require_hashes,
        command.stage == Stage::Markers && event is Done && command.options.require_hashes
            ==> goes_on_with(command, event, TaskView::CollectHashes, Stage::Hashes),
        goes_on_with_one(command, event, |task: TaskView| task is PrepareClient) <==> event is Done
            && (command.stage == Stage::Hashes || (command.stage == Stage::Markers
            && !command.options.require_hashes)),
        event is Done && (command.stage == Stage::Hashes || (command.stage == Stage::Markers
            && !command.options.require_hashes)) ==> goes_on_with(
            command,
            event,
            TaskView::PrepareClient,
            Stage::Client,
        ),
{
}

/// The flat indexes are always fetched once there is a client, and then a build dispatch is
/// prepared: in the environment itself exactly if build isolation is off.
pub proof fn law_the_build_dispatch_is_prepared(command: InstallView, event: Event)
    requires
        command.expects(event),
    ensures
        goes_on_with_one(command, event, |task: TaskView| task is FetchFlatIndex) <==> command.stage
            == Stage::Client && event is Done,
        command.stage == Stage::Client && event is Done ==> goes_on_with(
            command,
            event,
            TaskView::FetchFlatIndex,
            Stage::FlatIndex,
        ),
        goes_on_with_one(command, event, |task: TaskView| task is PrepareDispatch)
            <==> command.stage == Stage::FlatIndex && event is Done,
        command.stage == Stage::FlatIndex && event is Done ==> goes_on_with(
            command,
            event,
            TaskView::PrepareDispatch { shared: command.options.no_build_isolation },
            Stage::Dispatch,
        ),
{
}

/// The resolution comes from the lockfile exactly if a package of it was named, and then that
/// package is looked up; otherwise the requirements are resolved. The other options have no part in
/// it.
pub proof fn law_the_resolution_is_read_or_found(command: InstallView, event: Event)
    requires
        command.expects(event),
    ensures
        goes_on_with_one(command, event, |task: TaskView| task is ReadLock) <==> command.stage
            == Stage::Dispatch && event is Done && command.options.uv_lock is Some,
        goes_on_with_one(command, event, |task: TaskView| task is Resolve) <==> command.stage
            == Stage::Dispatch && event is Done && command.options.uv_lock is None,
        command.stage == Stage::Dispatch && event is Done ==> (command.options.uv_lock matches Some(
            root,
        ) ==> goes_on_with(command, event, TaskView::ReadLock(root@), Stage::ReadLock)),
        command.stage == Stage::Dispatch && event is Done && command.options.uv_lock is None
            ==> goes_on_with(command, event, TaskView::Resolve, Stage::Resolve),
{
}

/// Whatever the options are, packages are installed once there is a resolution: with a separate
/// build dispatch exactly if packages are reinstalled.
pub proof fn law_the_resolution_is_installed(command: InstallView, event: Event)
    requires
        command.expects(event),
    ensures
        goes_on_with_one(command, event, |task: TaskView| task is Install) <==> event is Done && (
        command.stage == Stage::ReadLock || command.stage == Stage::Resolve),
        event is Done && (command.stage == Stage::ReadLock || command.stage == Stage::Resolve)
            ==> goes_on_with(
            command,
            event,
            TaskView::Install { separate_dispatch: command.options.reinstall },
            Stage::Install,
        ),
{
}

/// That there is no solution is reported with its reason, as a failure of the user input.
pub proof fn law_a_missing_solution_is_a_failure(command: InstallView, reason: String)
    requires
        command.stage == Stage::Resolve,
    ensures
        command.advance(Event::NoSolution(reason)).1 == (ActionView::Unsolvable {
            heading: "No solution found when resolving dependencies:"@,
            reason: reason@,
            status: ExitStatus::Failure,
        }),
{
}

/// The resolution is always diagnosed after the installation. The environment is diagnosed after
/// that exactly if the user asked for it and it is no dry run.
pub proof fn law_diagnostics_follow_the_installation(command: InstallView, event: Event)
    requires
        command.expects(event),
    ensures
        goes_on_with_one(command, event, |task: TaskView| task is DiagnoseResolution)
            <==> command.stage == Stage::Install && event is Done,
        command.stage == Stage::Install && event is Done ==> goes_on_with(
            command,
            event,
            TaskView::DiagnoseResolution,
            Stage::DiagnoseResolution,
        ),
        goes_on_with_one(command, event, |task: TaskView| task is DiagnoseEnvironment)
            <==> command.stage == Stage::DiagnoseResolution && event is Done
            && command.options.strict && !command.options.dry_run,
        command.stage == Stage::DiagnoseResolution && event is Done && command.options.strict
            && !command.options.dry_run ==> goes_on_with(
            command,
            event,
            TaskView::DiagnoseEnvironment,
            Stage::DiagnoseEnvironment,
        ),
{
}

/// The command ends with success, and without a word, exactly after its last diagnostics, or if
/// the requirements are satisfied already. It ends with an error exactly if a task failed or if the
/// environment is managed by others, and with the error of the task that failed.
pub proof fn law_how_the_command_ends(command: InstallView, event: Event)
    requires
        command.expects(event),
    ensures
        command.advance(event).1 is Exit <==> event is Fresh || (event is Done && (command.stage
            == Stage::DiagnoseEnvironment || (command.stage == Stage::DiagnoseResolution && !(
        command.options.strict && !command.options.dry_run)))),
        command.advance(event).1 is Exit && !(event is Fresh) ==> command.advance(event).1 == (
        ActionView::Exit { messages: Seq::empty(), status: ExitStatus::Success }),
        command.advance(event).1 is Unsolvable <==> event is NoSolution,
        command.advance(event).1 is Abort <==> event is Failed || (event matches Event::Managed(
            Some(_),
        ) && !command.options.break_system_packages),
        event matches Event::Failed(text) ==> command.advance(event).1 == ActionView::Abort(text@),
        !(command.advance(event).1 is Perform) ==> command.advance(event).0.stage == Stage::Ended,
        command.advance(event).1 matches ActionView::Perform(task) ==> !(task is ReadRequirements),
{
}

/// Whether the event can come of a task: its own outcome, or that it failed. Nothing can come once
/// the command ended.
pub proof fn law_what_can_come_of_a_task(command: InstallView, event: Event)
    ensures
        event is Failed ==> (command.expects(event) <==> command.stage != Stage::Ended),
        event is Requirements ==> (command.expects(event) <==> command.stage
            == Stage::Requirements),
        event is Managed ==> (command.expects(event) <==> command.stage == Stage::Managed),
        event is Fresh || event is Unsatisfied ==> (command.expects(event) <==> command.stage
            == Stage::Satisfied),
        event is NoSolution ==> (command.expects(event) <==> command.stage == Stage::Resolve),
        event is Done ==> (command.expects(event) <==> command.stage != Stage::Ended
            && command.stage != Stage::Requirements && command.stage != Stage::Managed
            && command.stage != Stage::Satisfied),
{
}

/// What is said of satisfied requirements names their number, as one package or as so many
/// packages, and the time that it took.
pub proof fn law_the_audit_names_the_number(count: usize, elapsed: Seq<char>)
    ensures
        audit_text(count, elapsed) == "\x1b[2m"@ + ("Audited "@ + ("\x1b[1m"@ + (decimal(
            count as nat,
        ) + if count == 1 {
            " package"@
        } else {
            " packages"@
        }) + "\x1b[0m"@) + " in "@ + elapsed) + "\x1b[0m"@,
{
}

/// What is said of an externally managed environment names the place of its interpreter, and what
/// the environment itself says, if it does.
pub proof fn law_managed_environments_are_named(root: Seq<char>, error: Seq<char>)
    ensures
        managed_text(root, None) == "The interpreter at "@ + ("\x1b[36m"@ + root + "\x1b[39m"@)
            + " is externally managed. Instead, create a virtual environment with `uv venv`."@,
        managed_text(root, Some(error)) == "The interpreter at "@ + ("\x1b[36m"@ + root
            + "\x1b[39m"@) + " is externally managed, and indicates the following:\n\n"@ + (
        "\x1b[32m"@ + indented(error, "  "@) + "\x1b[39m"@)
            + "\n\nConsider creating a virtual environment with `uv venv`."@,
{
}

/// The command starts with the options that it was given and knows of no requirement. It waits for
/// the requirements, or for the word that they could not be read, and for nothing else.
pub proof fn law_the_command_starts_with_the_requirements(options: InstallOptions, event: Event)
    ensures
        InstallView::start(options).options == options,
        InstallView::start(options).requirements.count == 0,
        !InstallView::start(options).requirements.source_trees,
        !InstallView::start(options).requirements.overrides,
        InstallView::start(options).expects(event) <==> event is Requirements || event is Failed,
{
}

} // verus!
