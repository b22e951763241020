use upkeep::job::{Action, Command, Completion, Job, JobRun, Step};
use upkeep::outcome::Outcome;
use upkeep::registry::{brew_upgrade, macos_update, pip_upgrade, registry, rustup_update};

fn strings(items: &[&str]) -> Vec<String> {
    items.iter().map(|s| s.to_string()).collect()
}

#[test]
fn registry_lists_the_four_jobs_in_order() {
    let jobs = registry();
    let names: Vec<&str> = jobs.iter().map(|job| job.name.as_str()).collect();
    assert_eq!(names, vec!["brew", "macos", "pip", "rustup"]);
    assert_eq!(jobs, vec![brew_upgrade(), macos_update(), pip_upgrade(), rustup_update()]);
}

#[test]
fn registry_is_the_same_on_every_call() {
    assert_eq!(registry(), registry());
}

#[test]
fn brew_updates_then_upgrades() {
    let expected = Job {
        name: "brew".to_string(),
        steps: vec![
            Step::Invoke(Command::new("brew", &["update"])),
            Step::Invoke(Command::new("brew", &["upgrade"])),
        ],
    };
    assert_eq!(brew_upgrade(), expected);
}

#[test]
fn macos_installs_all_updates() {
    let expected = Job {
        name: "macos".to_string(),
        steps: vec![Step::Invoke(Command::new("softwareupdate", &["-ia"]))],
    };
    assert_eq!(macos_update(), expected);
}

#[test]
fn rustup_updates_the_toolchains() {
    let expected = Job {
        name: "rustup".to_string(),
        steps: vec![Step::Invoke(Command::new("rustup", &["update"]))],
    };
    assert_eq!(rustup_update(), expected);
}

#[test]
fn pip_upgrades_itself_then_the_outdated_packages() {
    let expected = Job {
        name: "pip".to_string(),
        steps: vec![
            Step::Invoke(Command::new("python3", &["-m", "pip", "install", "--upgrade", "pip"])),
            Step::Invoke(Command::new(
                "python3",
                &["-m", "pip", "install", "--upgrade", "setuptools", "wheel"],
            )),
            Step::Derive {
                listing: Command::new("python3", &["-m", "pip", "list", "--outdated"]),
                follow_up: Command::new("python3", &["-m", "pip", "install", "--upgrade"]),
                exclusions: strings(&["pip", "setuptools", "wheel"]),
            },
        ],
    };
    assert_eq!(pip_upgrade(), expected);
}

#[test]
fn pip_job_runs_from_listing_to_follow_up() {
    let ok = || Completion::Exited { code: Some(0), output: String::new() };
    let mut run = JobRun::new(pip_upgrade());
    run.observe(ok());
    run.observe(ok());
    assert_eq!(
        run.next_action(),
        Action::Launch {
            command: Command::new("python3", &["-m", "pip", "list", "--outdated"]),
            capture: true,
        }
    );
    run.observe(Completion::Exited {
        code: Some(0),
        output: "requests 2.0 2.1 wheel\npip 1 2 wheel\nwheel 0.1 0.2 wheel\nrequests 2.0\n"
            .to_string(),
    });
    assert_eq!(
        run.next_action(),
        Action::Launch {
            command: Command::new(
                "python3",
                &["-m", "pip", "install", "--upgrade", "requests"],
            ),
            capture: false,
        }
    );
    run.observe(ok());
    assert_eq!(run.outcome(), Some(Outcome::Success { code: 0 }));
}
