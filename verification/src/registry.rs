//! The jobs of the tool: a fixed, ordered list, made anew on every call.

use vstd::prelude::*;
use crate::job::{Command, CommandView, Job, JobView, Step, StepView};

verus! {

/// The job that brings Homebrew's formulae up to date: `brew update`, then
/// `brew upgrade`.
pub open spec fn brew_upgrade_plan() -> JobView {
    JobView {
        name: "brew"@,
        steps: seq![
            StepView::Invoke(CommandView { program: "brew"@, args: seq!["update"@] }),
            StepView::Invoke(CommandView { program: "brew"@, args: seq!["upgrade"@] }),
        ],
    }
}

/// The job that installs the pending updates of macOS: `softwareupdate -ia`.
pub open spec fn macos_update_plan() -> JobView {
    JobView {
        name: "macos"@,
        steps: seq![
            StepView::Invoke(CommandView { program: "softwareupdate"@, args: seq!["-ia"@] }),
        ],
    }
}

/// The job that brings Python's packages up to date. It upgrades `pip`
/// itself, then `setuptools` and `wheel`, then asks `pip` for the outdated
/// packages and upgrades those that the earlier steps have not dealt with.
pub open spec fn pip_upgrade_plan() -> JobView {
    JobView {
        name: "pip"@,
        steps: seq![
            StepView::Invoke(
                CommandView {
                    program: "python3"@,
                    args: seq!["-m"@, "pip"@, "install"@, "--upgrade"@, "pip"@],
                },
            ),
            StepView::Invoke(
                CommandView {
                    program: "python3"@,
                    args: seq!["-m"@, "pip"@, "install"@, "--upgrade"@, "setuptools"@, "wheel"@],
                },
            ),
            StepView::Derive {
                listing: CommandView {
                    program: "python3"@,
                    args: seq!["-m"@, "pip"@, "list"@, "--outdated"@],
                },
                follow_up: CommandView {
                    program: "python3"@,
                    args: seq!["-m"@, "pip"@, "install"@, "--upgrade"@],
                },
                exclusions: seq!["pip"@, "setuptools"@, "wheel"@],
            },
        ],
    }
}

/// The job that brings the installed Rust toolchains up to date:
/// `rustup update`.
pub open spec fn rustup_update_plan() -> JobView {
    JobView {
        name: "rustup"@,
        steps: seq![
            StepView::Invoke(CommandView { program: "rustup"@, args: seq!["update"@] }),
        ],
    }
}

/// The jobs of the tool, in their fixed order.
pub open spec fn registry_plan() -> Seq<JobView> {
    seq![brew_upgrade_plan(), macos_update_plan(), pip_upgrade_plan(), rustup_update_plan()]
}

/// Upgrade all the Homebrew utilities.
pub fn brew_upgrade() -> (job: Job)
    ensures
        job@ == brew_upgrade_plan(),
{
    let mut steps: Vec<Step> = Vec::new();
    steps.push(Step::Invoke(Command::new("brew", &["update"])));
    steps.push(Step::Invoke(Command::new("brew", &["upgrade"])));
    let job = Job { name: "brew".to_owned(), steps };
    assert(job@ =~~= brew_upgrade_plan());
    job
}

/// Upgrade macOS itself.
pub fn macos_update() -> (job: Job)
    ensures
        job@ == macos_update_plan(),
{
    let mut steps: Vec<Step> = Vec::new();
    steps.push(Step::Invoke(Command::new("softwareupdate", &["-ia"])));
    let job = Job { name: "macos".to_owned(), steps };
    assert(job@ =~~= macos_update_plan());
    job
}

/// Upgrade `pip`, `setuptools` and `wheel` with pip, then every other
/// package that pip lists as outdated.
pub fn pip_upgrade() -> (job: Job)
    ensures
        job@ == pip_upgrade_plan(),
{
    let mut exclusions: Vec<String> = Vec::new();
    exclusions.push("pip".to_owned());
    exclusions.push("setuptools".to_owned());
    exclusions.push("wheel".to_owned());
    let mut steps: Vec<Step> = Vec::new();
    steps.push(
        Step::Invoke(Command::new("python3", &["-m", "pip", "install", "--upgrade", "pip"])),
    );
    steps.push(
        Step::Invoke(
            Command::new("python3", &["-m", "pip", "install", "--upgrade", "setuptools", "wheel"]),
        ),
    );
    steps.push(
        Step::Derive {
            listing: Command::new("python3", &["-m", "pip", "list", "--outdated"]),
            follow_up: Command::new("python3", &["-m", "pip", "install", "--upgrade"]),
            exclusions,
        },
    );
    let job = Job { name: "pip".to_owned(), steps };
    assert(job@ =~~= pip_upgrade_plan());
    job
}

/// Upgrade the currently installed Rust toolchains.
pub fn rustup_update() -> (job: Job)
    ensures
        job@ == rustup_update_plan(),
{
    let mut steps: Vec<Step> = Vec::new();
    steps.push(Step::Invoke(Command::new("rustup", &["update"])));
    let job = Job { name: "rustup".to_owned(), steps };
    assert(job@ =~~= rustup_update_plan());
    job
}

/// The jobs of the tool, in their fixed order. Every call gives a list of
/// its own with the same content.
pub fn registry() -> (jobs: Vec<Job>)
    ensures
        jobs@.len() == registry_plan().len(),
        forall|i: int| 0 <= i < jobs@.len() ==> (#[trigger] jobs@[i])@ == registry_plan()[i],
{
    let mut jobs: Vec<Job> = Vec::new();
    jobs.push(brew_upgrade());
    jobs.push(macos_update());
    jobs.push(pip_upgrade());
    jobs.push(rustup_update());
    jobs
}

} // verus!
