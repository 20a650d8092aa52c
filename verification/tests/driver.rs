use vg_core::driver::{
    cargo_args, notice_text, Action, Args, Cmd, Decision, Driver, Event, Idle, Notice, Opts, Phase,
    Step, Stop,
};

fn opts(cmd: Option<Cmd>) -> Opts {
    Opts { manifest_path: "Cargo.toml".to_string(), build_path: None, cmd }
}

fn say(notice: Notice, act: Action) -> Decision {
    Decision { say: Some(notice), act }
}

fn quiet(act: Action) -> Decision {
    Decision { say: None, act }
}

#[test]
fn no_command_means_run() {
    assert_eq!(Driver::new(&opts(None)), Driver { mode: Cmd::Run, phase: Phase::Idle });
    assert_eq!(Driver::new(&opts(Some(Cmd::Watch))).mode, Cmd::Watch);
}

#[test]
fn args_carry_the_options() {
    let Args::Vg(inner) = Args::Vg(opts(Some(Cmd::Clean)));
    assert_eq!(inner.cmd, Some(Cmd::Clean));
    assert_eq!(inner.manifest_path, "Cargo.toml");
}

#[test]
fn run_builds_then_launches() {
    let mut driver = Driver::new(&opts(Some(Cmd::Run)));
    assert_eq!(driver.next(Event::Started), quiet(Action::Cargo(Step::Build)));
    assert_eq!(
        driver.next(Event::CargoFinished(true)),
        say(Notice::Running, Action::Launch { idle: Idle::Forever, carry: false })
    );
    assert_eq!(driver.phase, Phase::Driving);
    assert_eq!(
        driver.next(Event::Stopped(Stop::Trapped)),
        say(Notice::Trapped, Action::Exit(false))
    );
    assert_eq!(driver.phase, Phase::Done);
}

#[test]
fn run_ends_in_failure_when_the_image_is_refused() {
    let mut driver = Driver::new(&opts(None));
    driver.next(Event::Started);
    driver.next(Event::CargoFinished(true));
    assert_eq!(
        driver.next(Event::Stopped(Stop::LoadFailed)),
        say(Notice::LoadFailed, Action::Exit(false))
    );
}

#[test]
fn run_ends_in_success_when_it_is_told_to_stop() {
    let mut driver = Driver::new(&opts(None));
    driver.next(Event::Started);
    driver.next(Event::CargoFinished(true));
    assert_eq!(driver.next(Event::Stopped(Stop::Interrupted)), quiet(Action::Exit(true)));
}

#[test]
fn a_failed_build_launches_nothing() {
    for cmd in [Cmd::Run, Cmd::Watch, Cmd::Build] {
        let mut driver = Driver::new(&opts(Some(cmd)));
        driver.next(Event::Started);
        if cmd == Cmd::Watch {
            driver.next(Event::Armed);
        }
        assert_eq!(
            driver.next(Event::CargoFinished(false)),
            say(Notice::BuildFailed, Action::Exit(false))
        );
        assert_eq!(driver.phase, Phase::Done);
    }
}

#[test]
fn build_and_clean_end_with_cargos_status() {
    let mut driver = Driver::new(&opts(Some(Cmd::Build)));
    assert_eq!(driver.next(Event::Started), say(Notice::Building, Action::Cargo(Step::Build)));
    assert_eq!(driver.next(Event::CargoFinished(true)), quiet(Action::Exit(true)));

    let mut driver = Driver::new(&opts(Some(Cmd::Clean)));
    assert_eq!(driver.next(Event::Started), say(Notice::Cleaning, Action::Cargo(Step::Clean)));
    assert_eq!(driver.next(Event::CargoFinished(true)), quiet(Action::Exit(true)));

    let mut driver = Driver::new(&opts(Some(Cmd::Clean)));
    driver.next(Event::Started);
    assert_eq!(driver.next(Event::CargoFinished(false)), quiet(Action::Exit(false)));
}

#[test]
fn watch_reloads_on_every_change_and_carries_state() {
    let mut driver = Driver::new(&opts(Some(Cmd::Watch)));
    assert_eq!(driver.next(Event::Started), say(Notice::Watching, Action::Arm));
    assert_eq!(driver.next(Event::Armed), quiet(Action::Cargo(Step::Build)));
    assert_eq!(
        driver.next(Event::CargoFinished(true)),
        say(Notice::Running, Action::Launch { idle: Idle::UntilChange, carry: false })
    );
    for _ in 0..3 {
        assert_eq!(
            driver.next(Event::Stopped(Stop::Interrupted)),
            say(Notice::Reloading, Action::Cargo(Step::Build))
        );
        assert_eq!(
            driver.next(Event::CargoFinished(true)),
            say(Notice::Running, Action::Launch { idle: Idle::UntilChange, carry: true })
        );
    }
}

#[test]
fn watch_waits_out_a_fault_and_starts_afresh() {
    for stop in [Stop::Trapped, Stop::LoadFailed] {
        let mut driver = Driver::new(&opts(Some(Cmd::Watch)));
        driver.next(Event::Started);
        driver.next(Event::Armed);
        driver.next(Event::CargoFinished(true));
        let notice = if stop == Stop::Trapped { Notice::Trapped } else { Notice::LoadFailed };
        assert_eq!(driver.next(Event::Stopped(stop)), say(notice, Action::AwaitChange));
        assert_eq!(driver.phase, Phase::Stalled);
        assert_eq!(
            driver.next(Event::Changed),
            say(Notice::Reloading, Action::Cargo(Step::Build))
        );
        assert_eq!(
            driver.next(Event::CargoFinished(true)),
            say(Notice::Running, Action::Launch { idle: Idle::UntilChange, carry: false })
        );
    }
}

#[test]
fn an_event_out_of_place_ends_the_command() {
    let mut driver = Driver::new(&opts(None));
    assert_eq!(driver.next(Event::Changed), quiet(Action::Exit(false)));
    assert_eq!(driver.phase, Phase::Done);
    assert_eq!(driver.next(Event::Started), quiet(Action::Exit(false)));

    let mut driver = Driver::new(&opts(Some(Cmd::Build)));
    driver.next(Event::Started);
    assert_eq!(driver.next(Event::Stopped(Stop::Interrupted)), quiet(Action::Exit(false)));
}

#[test]
fn cargo_gets_step_manifest_and_target() {
    assert_eq!(
        cargo_args(&opts(None), Step::Build),
        vec!["build", "--manifest-path", "Cargo.toml", "--target", "wasm32-unknown-unknown"]
    );
    let with_dir = Opts {
        manifest_path: "game/Cargo.toml".to_string(),
        build_path: Some("out".to_string()),
        cmd: None,
    };
    assert_eq!(
        cargo_args(&with_dir, Step::Clean),
        vec![
            "clean",
            "--manifest-path",
            "game/Cargo.toml",
            "--target",
            "wasm32-unknown-unknown",
            "--target-dir",
            "out"
        ]
    );
}

#[test]
fn every_notice_has_its_text() {
    assert_eq!(notice_text(Notice::Running), "Running project");
    assert_eq!(notice_text(Notice::Watching), "Watching project for changes");
    assert_eq!(notice_text(Notice::Reloading), "Reloading");
    assert_eq!(notice_text(Notice::Building), "Building project");
    assert_eq!(notice_text(Notice::Cleaning), "Cleaning project");
    assert_eq!(notice_text(Notice::BuildFailed), "Build failed");
    assert_eq!(notice_text(Notice::LoadFailed), "The module could not be loaded");
    assert_eq!(notice_text(Notice::Trapped), "The guest faulted");
}
