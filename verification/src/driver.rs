//! The decisions of the build-and-run command. The command itself runs
//! cargo, watches files and drives a guest; what it does next, given what
//! just happened, is decided here.

use vstd::prelude::*;
use vstd::string::*;

verus! {

/// What the command is asked to do.
#[derive(Clone, Copy, Debug, PartialEq, Eq, Structural)]
pub enum Cmd {
    /// Build the project and launch it.
    Run,
    /// Run the project again on every file change.
    Watch,
    /// Build the project.
    Build,
    /// Clean the project's build files.
    Clean,
}

/// The options of the command.
#[derive(Clone, Debug)]
pub struct Opts {
    /// The project's manifest.
    pub manifest_path: String,
    /// Where build files go, if not in the default place.
    pub build_path: Option<String>,
    /// What to do; to run, if nothing is said.
    pub cmd: Option<Cmd>,
}

/// The command line as cargo hands it on: the subcommand's name, then its
/// options.
#[derive(Clone, Debug)]
pub enum Args {
    Vg(Opts),
}

/// A step that cargo is asked to take.
#[derive(Clone, Copy, Debug, PartialEq, Eq, Structural)]
pub enum Step {
    Build,
    Clean,
}

/// A line for the user.
#[derive(Clone, Copy, Debug, PartialEq, Eq, Structural)]
pub enum Notice {
    Running,
    Watching,
    Reloading,
    Building,
    Cleaning,
    BuildFailed,
    LoadFailed,
    Trapped,
}

/// Why a guest stopped being driven.
#[derive(Clone, Copy, Debug, PartialEq, Eq, Structural)]
pub enum Stop {
    /// The host was told to stop: in watch mode, a file has changed.
    Interrupted,
    /// The module image was refused.
    LoadFailed,
    /// The guest faulted.
    Trapped,
}

/// What has just happened.
#[derive(Clone, Copy, Debug, PartialEq, Eq, Structural)]
pub enum Event {
    /// The command has started.
    Started,
    /// The file watcher is in place.
    Armed,
    /// Cargo has finished, successfully or not.
    CargoFinished(bool),
    /// The guest is no longer being driven.
    Stopped(Stop),
    /// A watched file has changed.
    Changed,
}

/// How long a guest is driven.
#[derive(Clone, Copy, Debug, PartialEq, Eq, Structural)]
pub enum Idle {
    /// Until it faults.
    Forever,
    /// Until a watched file changes.
    UntilChange,
}

/// What to do next.
#[derive(Clone, Copy, Debug, PartialEq, Eq, Structural)]
pub enum Action {
    /// Put the file watcher in place.
    Arm,
    /// Run cargo.
    Cargo(Step),
    /// Load the module that was just built and drive it. With `carry`, try
    /// to carry the state of the guest that ran before over into it.
    Launch { idle: Idle, carry: bool },
    /// Wait for a watched file to change.
    AwaitChange,
    /// End the command; `true` for success.
    Exit(bool),
}

/// What the command does next: at most one line for the user, then one
/// action.
#[derive(Clone, Copy, Debug, PartialEq, Eq, Structural)]
pub struct Decision {
    pub say: Option<Notice>,
    pub act: Action,
}

/// Where the command stands.
#[derive(Clone, Copy, Debug, PartialEq, Eq, Structural)]
pub enum Phase {
    /// Nothing has happened yet.
    Idle,
    /// The file watcher is being put in place.
    Arming,
    /// Cargo is running a step. `carry` says whether a guest is waiting to
    /// have its state carried over once the build is done.
    Cargo { step: Step, carry: bool },
    /// A guest is being driven.
    Driving,
    /// Watch mode, no guest: waiting for a file to change.
    Stalled,
    /// The command has ended.
    Done,
}

/// The command ends in failure: the answer to every event that does not fit
/// the phase.
pub open spec fn give_up() -> (Phase, Decision) {
    (Phase::Done, Decision { say: None, act: Action::Exit(false) })
}

/// The first move of each mode.
pub open spec fn first_move(mode: Cmd) -> (Phase, Decision) {
    match mode {
        Cmd::Run => (
            Phase::Cargo { step: Step::Build, carry: false },
            Decision { say: None, act: Action::Cargo(Step::Build) },
        ),
        Cmd::Watch => (Phase::Arming, Decision { say: Some(Notice::Watching), act: Action::Arm }),
        Cmd::Build => (
            Phase::Cargo { step: Step::Build, carry: false },
            Decision { say: Some(Notice::Building), act: Action::Cargo(Step::Build) },
        ),
        Cmd::Clean => (
            Phase::Cargo { step: Step::Clean, carry: false },
            Decision { say: Some(Notice::Cleaning), act: Action::Cargo(Step::Clean) },
        ),
    }
}

/// What follows a finished cargo step. A failed step ends the command in
/// failure, and no guest is launched. After a successful build, the modes
/// that run a guest launch it; the others end in success.
pub open spec fn after_cargo(mode: Cmd, step: Step, carry: bool, success: bool) -> (
    Phase,
    Decision,
) {
    if !success {
        (
            Phase::Done,
            Decision {
                say: if step == Step::Build {
                    Some(Notice::BuildFailed)
                } else {
                    None
                },
                act: Action::Exit(false),
            },
        )
    } else {
        match mode {
            Cmd::Run => (
                Phase::Driving,
                Decision {
                    say: Some(Notice::Running),
                    act: Action::Launch { idle: Idle::Forever, carry: false },
                },
            ),
            Cmd::Watch => (
                Phase::Driving,
                Decision {
                    say: Some(Notice::Running),
                    act: Action::Launch { idle: Idle::UntilChange, carry },
                },
            ),
            Cmd::Build | Cmd::Clean => (Phase::Done, Decision { say: None, act: Action::Exit(true) }),
        }
    }
}

/// The line for a guest that is gone.
pub open spec fn diagnosis(stop: Stop) -> Option<Notice> {
    match stop {
        Stop::Interrupted => None,
        Stop::LoadFailed => Some(Notice::LoadFailed),
        Stop::Trapped => Some(Notice::Trapped),
    }
}

/// What follows when the guest is no longer driven. In watch mode a change
/// leads to a rebuild that tries to carry the guest's state over, and a
/// guest that is gone is waited out until the next change. In run mode the
/// command ends: in failure if the guest is gone.
pub open spec fn after_stop(mode: Cmd, stop: Stop) -> (Phase, Decision) {
    match mode {
        Cmd::Watch => match stop {
            Stop::Interrupted => (
                Phase::Cargo { step: Step::Build, carry: true },
                Decision { say: Some(Notice::Reloading), act: Action::Cargo(Step::Build) },
            ),
            _ => (Phase::Stalled, Decision { say: diagnosis(stop), act: Action::AwaitChange }),
        },
        _ => (
            Phase::Done,
            Decision { say: diagnosis(stop), act: Action::Exit(stop == Stop::Interrupted) },
        ),
    }
}

/// The whole table: what the command does next, given its mode, where it
/// stands, and what has just happened.
pub open spec fn decide(mode: Cmd, phase: Phase, event: Event) -> (Phase, Decision) {
    match (phase, event) {
        (Phase::Idle, Event::Started) => first_move(mode),
        (Phase::Arming, Event::Armed) => (
            Phase::Cargo { step: Step::Build, carry: false },
            Decision { say: None, act: Action::Cargo(Step::Build) },
        ),
        (Phase::Cargo { step, carry }, Event::CargoFinished(success)) => after_cargo(
            mode,
            step,
            carry,
            success,
        ),
        (Phase::Driving, Event::Stopped(stop)) => after_stop(mode, stop),
        (Phase::Stalled, Event::Changed) => (
            Phase::Cargo { step: Step::Build, carry: false },
            Decision { say: Some(Notice::Reloading), act: Action::Cargo(Step::Build) },
        ),
        _ => give_up(),
    }
}

/// The mode that the options ask for.
pub open spec fn mode_of(cmd: Option<Cmd>) -> Cmd {
    match cmd {
        Some(cmd) => cmd,
        None => Cmd::Run,
    }
}

/// The command's memory between events.
#[derive(Clone, Copy, Debug, PartialEq, Eq, Structural)]
pub struct Driver {
    pub mode: Cmd,
    pub phase: Phase,
}

impl Driver {
    /// A command that has not started.
    pub fn new(opts: &Opts) -> (d: Driver)
        ensures
            d == (Driver { mode: mode_of(opts.cmd), phase: Phase::Idle }),
    {
        Driver {
            mode: match opts.cmd {
                Some(cmd) => cmd,
                None => Cmd::Run,
            },
            phase: Phase::Idle,
        }
    }

    /// Takes note of `event` and says what to do next.
    pub fn next(&mut self, event: Event) -> (d: Decision)
        ensures
            final(self).mode == old(self).mode,
            (final(self).phase, d) == decide(old(self).mode, old(self).phase, event),
    {
        let mode: Cmd = self.mode;
        let (phase, decision) = match (self.phase, event) {
            (Phase::Idle, Event::Started) => match mode {
                Cmd::Run => (
                    Phase::Cargo { step: Step::Build, carry: false },
                    Decision { say: None, act: Action::Cargo(Step::Build) },
                ),
                Cmd::Watch => (
                    Phase::Arming,
                    Decision { say: Some(Notice::Watching), act: Action::Arm },
                ),
                Cmd::Build => (
                    Phase::Cargo { step: Step::Build, carry: false },
                    Decision { say: Some(Notice::Building), act: Action::Cargo(Step::Build) },
                ),
                Cmd::Clean => (
                    Phase::Cargo { step: Step::Clean, carry: false },
                    Decision { say: Some(Notice::Cleaning), act: Action::Cargo(Step::Clean) },
                ),
            },
            (Phase::Arming, Event::Armed) => (
                Phase::Cargo { step: Step::Build, carry: false },
                Decision { say: None, act: Action::Cargo(Step::Build) },
            ),
            (Phase::Cargo { step, carry }, Event::CargoFinished(success)) => {
                if !success {
                    let say: Option<Notice> = match step {
                        Step::Build => Some(Notice::BuildFailed),
                        Step::Clean => None,
                    };
                    (Phase::Done, Decision { say, act: Action::Exit(false) })
                } else {
                    match mode {
                        Cmd::Run => (
                            Phase::Driving,
                            Decision {
                                say: Some(Notice::Running),
                                act: Action::Launch { idle: Idle::Forever, carry: false },
                            },
                        ),
                        Cmd::Watch => (
                            Phase::Driving,
                            Decision {
                                say: Some(Notice::Running),
                                act: Action::Launch { idle: Idle::UntilChange, carry },
                            },
                        ),
                        _ => (Phase::Done, Decision { say: None, act: Action::Exit(true) }),
                    }
                }
            },
            (Phase::Driving, Event::Stopped(stop)) => {
                let say: Option<Notice> = match stop {
                    Stop::Interrupted => None,
                    Stop::LoadFailed => Some(Notice::LoadFailed),
                    Stop::Trapped => Some(Notice::Trapped),
                };
                match (mode, stop) {
                    (Cmd::Watch, Stop::Interrupted) => (
                        Phase::Cargo { step: Step::Build, carry: true },
                        Decision { say: Some(Notice::Reloading), act: Action::Cargo(Step::Build) },
                    ),
                    (Cmd::Watch, _) => (Phase::Stalled, Decision { say, act: Action::AwaitChange }),
                    (_, Stop::Interrupted) => (
                        Phase::Done,
                        Decision { say, act: Action::Exit(true) },
                    ),
                    _ => (Phase::Done, Decision { say, act: Action::Exit(false) }),
                }
            },
            (Phase::Stalled, Event::Changed) => (
                Phase::Cargo { step: Step::Build, carry: false },
                Decision { say: Some(Notice::Reloading), act: Action::Cargo(Step::Build) },
            ),
            _ => (Phase::Done, Decision { say: None, act: Action::Exit(false) }),
        };
        self.phase = phase;
        decision
    }
}

/// A failed build never leads to a launch, whatever the mode: the command
/// ends, in failure.
pub proof fn lemma_failed_build_ends_the_command(mode: Cmd, carry: bool)
    ensures
        decide(
            mode,
            Phase::Cargo { step: Step::Build, carry },
            Event::CargoFinished(false),
        ) == (Phase::Done, Decision { say: Some(Notice::BuildFailed), act: Action::Exit(false) }),
{
}

/// The build and clean commands succeed exactly when their cargo step does.
pub proof fn lemma_status_is_cargo_status(mode: Cmd, success: bool)
    requires
        mode == Cmd::Build || mode == Cmd::Clean,
    ensures
        decide(mode, first_move(mode).0, Event::CargoFinished(success)).0 == Phase::Done,
        decide(mode, first_move(mode).0, Event::CargoFinished(success)).1.act == Action::Exit(
            success,
        ),
{
}

/// The state of a faulted guest is never carried over: after a fault or a
/// refused image, watch mode waits for a change and then launches afresh.
pub proof fn lemma_faulted_guest_is_not_carried(stop: Stop, success: bool)
    requires
        stop != Stop::Interrupted,
    ensures
        ({
            let (stalled, waiting) = decide(Cmd::Watch, Phase::Driving, Event::Stopped(stop));
            let (building, rebuilding) = decide(Cmd::Watch, stalled, Event::Changed);
            let (_, launching) = decide(Cmd::Watch, building, Event::CargoFinished(true));
            &&& waiting.act == Action::AwaitChange
            &&& rebuilding.act == Action::Cargo(Step::Build)
            &&& launching.act == Action::Launch { idle: Idle::UntilChange, carry: false }
        }),
{
}

/// The text of a line for the user.
pub fn notice_text(notice: Notice) -> (text: String)
    ensures
        text@ == match notice {
            Notice::Running => "Running project"@,
            Notice::Watching => "Watching project for changes"@,
            Notice::Reloading => "Reloading"@,
            Notice::Building => "Building project"@,
            Notice::Cleaning => "Cleaning project"@,
            Notice::BuildFailed => "Build failed"@,
            Notice::LoadFailed => "The module could not be loaded"@,
            Notice::Trapped => "The guest faulted"@,
        },
{
    match notice {
        Notice::Running => String::from_str("Running project"),
        Notice::Watching => String::from_str("Watching project for changes"),
        Notice::Reloading => String::from_str("Reloading"),
        Notice::Building => String::from_str("Building project"),
        Notice::Cleaning => String::from_str("Cleaning project"),
        Notice::BuildFailed => String::from_str("Build failed"),
        Notice::LoadFailed => String::from_str("The module could not be loaded"),
        Notice::Trapped => String::from_str("The guest faulted"),
    }
}

/// The views of a list of strings.
pub open spec fn texts(v: Seq<String>) -> Seq<Seq<char>> {
    v.map_values(|s: String| s@)
}

/// The name of a cargo step.
pub open spec fn step_name(step: Step) -> Seq<char> {
    match step {
        Step::Build => "build"@,
        Step::Clean => "clean"@,
    }
}

/// The arguments that cargo gets for a step.
pub open spec fn cargo_line(manifest: Seq<char>, build: Option<Seq<char>>, step: Step) -> Seq<
    Seq<char>,
> {
    let fixed = seq![
        step_name(step),
        "--manifest-path"@,
        manifest,
        "--target"@,
        "wasm32-unknown-unknown"@,
    ];
    match build {
        Some(path) => fixed + seq!["--target-dir"@, path],
        None => fixed,
    }
}

/// The arguments that cargo gets for a step: the step, the manifest, the
/// target that guests are built for, and the build directory if one is
/// set.
pub fn cargo_args(opts: &Opts, step: Step) -> (args: Vec<String>)
    ensures
        texts(args@) == cargo_line(
            opts.manifest_path@,
            match opts.build_path {
                Some(path) => Some(path@),
                None => None,
            },
            step,
        ),
{
    let mut args: Vec<String> = Vec::new();
    args.push(
        match step {
            Step::Build => String::from_str("build"),
            Step::Clean => String::from_str("clean"),
        },
    );
    args.push(String::from_str("--manifest-path"));
    args.push(opts.manifest_path.clone());
    args.push(String::from_str("--target"));
    args.push(String::from_str("wasm32-unknown-unknown"));
    match &opts.build_path {
        Some(path) => {
            args.push(String::from_str("--target-dir"));
            args.push(path.clone());
        },
        None => {},
    }
    assert(texts(args@) =~= cargo_line(
        opts.manifest_path@,
        match opts.build_path {
            Some(path) => Some(path@),
            None => None,
        },
        step,
    ));
    args
}

} // verus!
