//! Jobs and the rules by which one job proceeds.
//!
//! A job is a list of steps, carried out one after the other. The caller
//! launches the commands; [`JobRun`] decides which command comes next and
//! when the job is over, from how the commands launched so far have ended.

use vstd::prelude::*;
use crate::discovery::{derive_packages, lemma_package_list_members, packages_of, tokens_of};
use crate::outcome::{Cause, Outcome};

verus! {

/// An external command: the program's name and its arguments.
#[derive(Debug, PartialEq, Eq)]
pub struct Command {
    pub program: String,
    pub args: Vec<String>,
}

/// A [`Command`] as mathematical data.
#[verifier::ext_equal]
pub struct CommandView {
    pub program: Seq<char>,
    pub args: Seq<Seq<char>>,
}

impl View for Command {
    type V = CommandView;

    open spec fn view(&self) -> CommandView {
        CommandView { program: self.program@, args: self.args.deep_view() }
    }
}

impl CommandView {
    /// This command with `extra` behind its own arguments.
    pub open spec fn with_args(self, extra: Seq<Seq<char>>) -> CommandView {
        CommandView { program: self.program, args: self.args + extra }
    }
}

/// A copy of `names`.
pub fn copy_names(names: &[String]) -> (copy: Vec<String>)
    ensures
        copy.deep_view() == names.deep_view(),
{
    let mut copy: Vec<String> = Vec::new();
    let mut i: usize = 0;
    while i < names.len()
        invariant
            i <= names.len(),
            copy.deep_view() == names.deep_view().take(i as int),
        decreases names.len() - i,
    {
        let ghost before = copy.deep_view();
        copy.push(names[i].clone());
        assert(copy.deep_view() == before.push(names.deep_view()[i as int]));
        i += 1;
    }
    assert(names.deep_view().take(names.len() as int) == names.deep_view());
    copy
}

impl Command {
    /// The command that runs `program` with `args`.
    pub fn new(program: &str, args: &[&str]) -> (command: Command)
        ensures
            command@.program == program@,
            command@.args == args.deep_view(),
    {
        let mut owned: Vec<String> = Vec::new();
        let mut i: usize = 0;
        while i < args.len()
            invariant
                i <= args.len(),
                owned.deep_view() == args.deep_view().take(i as int),
            decreases args.len() - i,
        {
            let ghost before = owned.deep_view();
            owned.push(args[i].to_owned());
            assert(owned.deep_view() == before.push(args.deep_view()[i as int]));
            i += 1;
        }
        assert(args.deep_view().take(args.len() as int) == args.deep_view());
        Command { program: program.to_owned(), args: owned }
    }

    /// A copy of this command.
    pub fn duplicate(&self) -> (copy: Command)
        ensures
            copy@ == self@,
    {
        Command { program: self.program.clone(), args: copy_names(self.args.as_slice()) }
    }

    /// This command with `extra` behind its own arguments.
    pub fn with_args(&self, extra: &[String]) -> (command: Command)
        ensures
            command@ == self@.with_args(extra.deep_view()),
    {
        let mut args = copy_names(self.args.as_slice());
        let mut i: usize = 0;
        while i < extra.len()
            invariant
                i <= extra.len(),
                args.deep_view() == self.args.deep_view() + extra.deep_view().take(i as int),
            decreases extra.len() - i,
        {
            let ghost before = args.deep_view();
            args.push(extra[i].clone());
            assert(args.deep_view() == before.push(extra.deep_view()[i as int]));
            i += 1;
        }
        assert(extra.deep_view().take(extra.len() as int) == extra.deep_view());
        Command { program: self.program.clone(), args }
    }
}

/// One step of a job.
#[derive(Debug, PartialEq, Eq)]
pub enum Step {
    /// Launch a fixed command and wait for it to end.
    Invoke(Command),
    /// Launch `listing` and read what it prints; then launch `follow_up`
    /// with the package list behind its own arguments: the names that the
    /// listing gave, without those in `exclusions`.
    Derive { listing: Command, follow_up: Command, exclusions: Vec<String> },
}

/// A [`Step`] as mathematical data.
#[verifier::ext_equal]
pub enum StepView {
    Invoke(CommandView),
    Derive { listing: CommandView, follow_up: CommandView, exclusions: Seq<Seq<char>> },
}

impl View for Step {
    type V = StepView;

    open spec fn view(&self) -> StepView {
        match *self {
            Step::Invoke(command) => StepView::Invoke(command@),
            Step::Derive { listing, follow_up, exclusions } => StepView::Derive {
                listing: listing@,
                follow_up: follow_up@,
                exclusions: exclusions.deep_view(),
            },
        }
    }
}

impl StepView {
    /// How many commands the step launches when none of them fails.
    pub open spec fn launches(self) -> nat {
        match self {
            StepView::Invoke(_) => 1,
            StepView::Derive { .. } => 2,
        }
    }
}

/// One independent unit of work: a name and the steps to carry out in order.
#[derive(Debug, PartialEq, Eq)]
pub struct Job {
    pub name: String,
    pub steps: Vec<Step>,
}

/// A [`Job`] as mathematical data.
#[verifier::ext_equal]
pub struct JobView {
    pub name: Seq<char>,
    pub steps: Seq<StepView>,
}

impl View for Job {
    type V = JobView;

    open spec fn view(&self) -> JobView {
        JobView {
            name: self.name@,
            steps: Seq::new(self.steps.len() as nat, |i: int| self.steps[i]@),
        }
    }
}

/// How many commands the steps launch when none of them fails.
pub open spec fn total_launches(steps: Seq<StepView>) -> nat
    decreases steps.len(),
{
    if steps.len() == 0 {
        0
    } else {
        total_launches(steps.drop_last()) + steps.last().launches()
    }
}

/// How a launched command ended.
#[derive(Debug, PartialEq, Eq)]
pub enum Completion {
    /// The program could not be started.
    LaunchFailed { os_error: Option<i32> },
    /// The program ran and ended. `code` is its exit code, `None` where it
    /// ended without one. `output` is what it printed to standard output,
    /// where the launch asked to capture it, and empty otherwise.
    Exited { code: Option<i32>, output: String },
}

/// A [`Completion`] as mathematical data.
#[verifier::ext_equal]
pub enum CompletionView {
    LaunchFailed { os_error: Option<i32> },
    Exited { code: Option<i32>, output: Seq<char> },
}

impl View for Completion {
    type V = CompletionView;

    open spec fn view(&self) -> CompletionView {
        match *self {
            Completion::LaunchFailed { os_error } => CompletionView::LaunchFailed { os_error },
            Completion::Exited { code, output } => CompletionView::Exited { code, output: output@ },
        }
    }
}

impl CompletionView {
    /// The command ran and ended with status zero.
    pub open spec fn succeeded(self) -> bool {
        self matches CompletionView::Exited { code, .. } && code == Some(0i32)
    }

    /// Why the command counts as failed, where it did not succeed.
    pub open spec fn cause(self) -> Cause {
        match self {
            CompletionView::LaunchFailed { os_error } => Cause::LaunchFailure { os_error },
            CompletionView::Exited { code, .. } => Cause::NonZeroExit { code },
        }
    }
}

/// What the caller is to do next for a job.
#[derive(Debug, PartialEq, Eq)]
pub enum Action {
    /// Launch `command`, wait for it to end, and hand the [`Completion`] to
    /// [`JobRun::observe`]. With `capture`, collect its standard output.
    Launch { command: Command, capture: bool },
    /// The job is over: report the outcome.
    Finish(Outcome),
}

/// An [`Action`] as mathematical data.
#[verifier::ext_equal]
pub enum ActionView {
    Launch { command: CommandView, capture: bool },
    Finish(Outcome),
}

impl View for Action {
    type V = ActionView;

    open spec fn view(&self) -> ActionView {
        match *self {
            Action::Launch { command, capture } => ActionView::Launch { command: command@, capture },
            Action::Finish(outcome) => ActionView::Finish(outcome),
        }
    }
}

/// The state of one job in progress, as mathematical data.
#[verifier::ext_equal]
pub struct RunView {
    pub job: JobView,
    /// The index of the step in progress; the number of steps once all are done.
    pub step: nat,
    /// The package list, from the moment the listing of the step in progress
    /// has succeeded until its follow-up command has ended.
    pub packages: Option<Seq<Seq<char>>>,
    /// Why the job failed, once a command has failed.
    pub failure: Option<Cause>,
}

impl RunView {
    /// The state of a job of which nothing has been launched yet.
    pub open spec fn start(job: JobView) -> RunView {
        RunView { job, step: 0, packages: None, failure: None }
    }

    /// The job is over: a command has failed, or every step is done.
    pub open spec fn finished(self) -> bool {
        self.failure is Some || self.step >= self.job.steps.len()
    }

    /// What the caller is to do in this state.
    pub open spec fn next_action(self) -> ActionView {
        if let Some(cause) = self.failure {
            ActionView::Finish(Outcome::Failure(cause))
        } else if self.step >= self.job.steps.len() {
            ActionView::Finish(Outcome::success())
        } else {
            match self.job.steps[self.step as int] {
                StepView::Invoke(command) => ActionView::Launch { command, capture: false },
                StepView::Derive { listing, follow_up, .. } => match self.packages {
                    None => ActionView::Launch { command: listing, capture: true },
                    Some(packages) => ActionView::Launch {
                        command: follow_up.with_args(packages),
                        capture: false,
                    },
                },
            }
        }
    }

    /// The state after the command that [`Self::next_action`] asked for has
    /// ended as `completion` says. A finished job stays as it is.
    pub open spec fn observe(self, completion: CompletionView) -> RunView {
        if self.finished() {
            self
        } else if !completion.succeeded() {
            RunView { failure: Some(completion.cause()), ..self }
        } else {
            match self.job.steps[self.step as int] {
                StepView::Invoke(_) => RunView { step: self.step + 1, packages: None, ..self },
                StepView::Derive { exclusions, .. } => match self.packages {
                    None => RunView {
                        packages: Some(packages_of(completion->output, exclusions.to_set())),
                        ..self
                    },
                    Some(_) => RunView { step: self.step + 1, packages: None, ..self },
                },
            }
        }
    }

    /// The outcome of the job, once it is over.
    pub open spec fn outcome(self) -> Option<Outcome> {
        match self.next_action() {
            ActionView::Finish(outcome) => Some(outcome),
            ActionView::Launch { .. } => None,
        }
    }
}

/// One job in progress.
///
/// The caller asks [`JobRun::next_action`] what to do, does it, and reports
/// how the launched command ended with [`JobRun::observe`], until the action
/// is [`Action::Finish`].
#[derive(Debug)]
pub struct JobRun {
    job: Job,
    step: usize,
    packages: Option<Vec<String>>,
    failure: Option<Cause>,
}

impl View for JobRun {
    type V = RunView;

    closed spec fn view(&self) -> RunView {
        RunView {
            job: self.job@,
            step: self.step as nat,
            packages: match self.packages {
                Some(packages) => Some(packages.deep_view()),
                None => None,
            },
            failure: self.failure,
        }
    }
}

impl JobRun {
    /// Begins a run of `job`: nothing has been launched yet.
    pub fn new(job: Job) -> (run: JobRun)
        ensures
            run@ == RunView::start(job@),
    {
        JobRun { job, step: 0, packages: None, failure: None }
    }

    /// The job that is run.
    pub fn job(&self) -> (job: &Job)
        ensures
            job@ == self@.job,
    {
        &self.job
    }

    /// Whether the job is over.
    pub fn is_finished(&self) -> (done: bool)
        ensures
            done == self@.finished(),
    {
        self.failure.is_some() || self.step >= self.job.steps.len()
    }

    /// What the caller is to do next: launch a command, or report the
    /// outcome of the finished job.
    pub fn next_action(&self) -> (action: Action)
        ensures
            action@ == self@.next_action(),
    {
        if let Some(cause) = self.failure {
            Action::Finish(Outcome::Failure(cause))
        } else if self.step >= self.job.steps.len() {
            Action::Finish(Outcome::Success { code: 0 })
        } else {
            match &self.job.steps[self.step] {
                Step::Invoke(command) => Action::Launch {
                    command: command.duplicate(),
                    capture: false,
                },
                Step::Derive { listing, follow_up, .. } => match &self.packages {
                    None => Action::Launch { command: listing.duplicate(), capture: true },
                    Some(packages) => Action::Launch {
                        command: follow_up.with_args(packages.as_slice()),
                        capture: false,
                    },
                },
            }
        }
    }

    /// The outcome of the job: `None` as long as it is not over.
    pub fn outcome(&self) -> (outcome: Option<Outcome>)
        ensures
            outcome == self@.outcome(),
    {
        if let Some(cause) = self.failure {
            Some(Outcome::Failure(cause))
        } else if self.step >= self.job.steps.len() {
            Some(Outcome::Success { code: 0 })
        } else {
            None
        }
    }

    /// Takes note of how the command that [`Self::next_action`] asked for has
    /// ended. A command that could not be started, or that ended with a
    /// status other than zero, ends the job as failed; no further command of
    /// the job is asked for. On a finished job this changes nothing.
    pub fn observe(&mut self, completion: Completion)
        ensures
            final(self)@ == old(self)@.observe(completion@),
    {
        if self.is_finished() {
            return ;
        }
        match completion {
            Completion::LaunchFailed { os_error } => {
                self.failure = Some(Cause::LaunchFailure { os_error });
            },
            Completion::Exited { code, output } => {
                let zero = match code {
                    Some(c) => c == 0,
                    None => false,
                };
                if !zero {
                    self.failure = Some(Cause::NonZeroExit { code });
                } else {
                    match &self.job.steps[self.step] {
                        Step::Invoke(_) => {
                            self.packages = None;
                            self.step = self.step + 1;
                        },
                        Step::Derive { exclusions, .. } => {
                            if self.packages.is_some() {
                                self.packages = None;
                                self.step = self.step + 1;
                            } else {
                                self.packages = Some(
                                    derive_packages(output.as_str(), exclusions.as_slice()),
                                );
                            }
                        },
                    }
                }
            },
        }
    }
}

impl RunView {
    /// What holds of every state that a run reaches: the step in progress is
    /// a step of the job or the end of the steps, and a package list is held
    /// only while a step that derives one is in progress.
    pub open spec fn well_formed(self) -> bool {
        &&& self.step <= self.job.steps.len()
        &&& self.packages is Some ==> self.step < self.job.steps.len()
            && self.job.steps[self.step as int] is Derive
    }

    /// How many commands of the job have ended with success.
    pub open spec fn progress(self) -> nat {
        total_launches(self.job.steps.take(self.step as int)) + if self.packages is Some {
            1nat
        } else {
            0nat
        }
    }
}

/// The state of a run of `job` after the commands launched so far have ended
/// as `completions` say, in the order in which they were launched.
pub open spec fn run_after(job: JobView, completions: Seq<CompletionView>) -> RunView
    decreases completions.len(),
{
    if completions.len() == 0 {
        RunView::start(job)
    } else {
        run_after(job, completions.drop_last()).observe(completions.last())
    }
}

/// The launches of the first `k` steps and of step `k` are among those of
/// all steps.
proof fn lemma_launches_prefix(steps: Seq<StepView>, k: int)
    requires
        0 <= k <= steps.len(),
    ensures
        total_launches(steps.take(k)) <= total_launches(steps),
        k < steps.len() ==> total_launches(steps.take(k + 1)) == total_launches(steps.take(k))
            + steps[k].launches(),
        k < steps.len() ==> total_launches(steps.take(k + 1)) <= total_launches(steps),
    decreases steps.len() - k,
{
    if k == steps.len() {
        assert(steps.take(k) == steps);
    } else {
        assert(steps.take(k + 1).drop_last() == steps.take(k));
        assert(steps.take(k + 1).last() == steps[k]);
        lemma_launches_prefix(steps, k + 1);
    }
}

/// As long as no command fails, a run stays well formed, and its progress is
/// the number of commands that have ended.
proof fn lemma_progress(job: JobView, completions: Seq<CompletionView>)
    requires
        forall|i: int| 0 <= i < completions.len() ==> (#[trigger] completions[i]).succeeded(),
        completions.len() <= total_launches(job.steps),
    ensures
        run_after(job, completions).job == job,
        run_after(job, completions).failure is None,
        run_after(job, completions).well_formed(),
        run_after(job, completions).progress() == completions.len(),
        run_after(job, completions).finished() <==> completions.len() == total_launches(
            job.steps,
        ),
    decreases completions.len(),
{
    let run = run_after(job, completions);
    if completions.len() == 0 {
        assert(job.steps.take(0) == Seq::<StepView>::empty());
    } else {
        let earlier = completions.drop_last();
        let before = run_after(job, earlier);
        assert forall|i: int| 0 <= i < earlier.len() implies (#[trigger] earlier[i]).succeeded() by {
            assert(earlier[i] == completions[i]);
        }
        lemma_progress(job, earlier);
        assert(!before.finished());
        assert(completions.last().succeeded());
        lemma_launches_prefix(job.steps, before.step as int);
    }
    lemma_launches_prefix(job.steps, run.step as int);
    if run.step == job.steps.len() {
        assert(job.steps.take(run.step as int) == job.steps);
    }
}

/// A job whose every command succeeds ends in success, and not before its
/// last command has ended: as long as fewer commands have ended than the job
/// launches in all, the next action is a launch.
pub proof fn lemma_success_when_all_succeed(job: JobView, completions: Seq<CompletionView>)
    requires
        forall|i: int| 0 <= i < completions.len() ==> (#[trigger] completions[i]).succeeded(),
        completions.len() <= total_launches(job.steps),
    ensures
        completions.len() == total_launches(job.steps) ==> run_after(job, completions).outcome()
            == Some(Outcome::success()),
        completions.len() < total_launches(job.steps) ==> run_after(job, completions).outcome()
            is None,
{
    lemma_progress(job, completions);
}

/// Once a job has failed it stays failed: its next action is to finish with
/// that failure, and whatever is observed afterwards changes nothing.
pub proof fn lemma_failure_is_final(run: RunView, completion: CompletionView)
    requires
        run.failure is Some,
    ensures
        run.next_action() == ActionView::Finish(Outcome::Failure(run.failure->0)),
        run.observe(completion) == run,
{
}

/// A job with a failing command ends in failure, with the cause of the first
/// command that failed, and attempts nothing after it: whatever follows the
/// failing command among `completions`, the run stays in the state that the
/// failure left, whose next action is to finish.
pub proof fn lemma_failure_at_first_failing_command(
    job: JobView,
    completions: Seq<CompletionView>,
    failing: int,
)
    requires
        0 <= failing < completions.len(),
        failing < total_launches(job.steps),
        forall|i: int| 0 <= i < failing ==> (#[trigger] completions[i]).succeeded(),
        !completions[failing].succeeded(),
    ensures
        run_after(job, completions) == run_after(job, completions.take(failing + 1)),
        run_after(job, completions).next_action() == ActionView::Finish(
            Outcome::Failure(completions[failing].cause()),
        ),
        run_after(job, completions).outcome() == Some(
            Outcome::Failure(completions[failing].cause()),
        ),
    decreases completions.len(),
{
    let upto = completions.take(failing + 1);
    if completions.len() == failing + 1 {
        assert(upto == completions);
        let earlier = completions.drop_last();
        assert forall|i: int| 0 <= i < earlier.len() implies (#[trigger] earlier[i]).succeeded() by {
            assert(earlier[i] == completions[i]);
        }
        lemma_progress(job, earlier);
    } else {
        let earlier = completions.drop_last();
        assert(earlier.take(failing + 1) == upto);
        assert forall|i: int| 0 <= i < failing implies (#[trigger] earlier[i]).succeeded() by {
            assert(earlier[i] == completions[i]);
        }
        lemma_failure_at_first_failing_command(job, earlier, failing);
    }
}

/// Where a listing succeeds and every name it gives is excluded, or it gives
/// none, the follow-up command is still asked for, with its own arguments
/// and no package behind them.
pub proof fn lemma_follow_up_without_packages(run: RunView, completion: CompletionView)
    requires
        !run.finished(),
        run.packages is None,
        run.job.steps[run.step as int] is Derive,
        completion.succeeded(),
        forall|name: Seq<char>| #[trigger]
            tokens_of(completion->output).contains(name) ==> run.job.steps[run.step as int]
                ->exclusions.contains(name),
    ensures
        run.observe(completion).next_action() == (ActionView::Launch {
            command: run.job.steps[run.step as int]->follow_up,
            capture: false,
        }),
{
    let exclusions = run.job.steps[run.step as int]->exclusions;
    let follow_up = run.job.steps[run.step as int]->follow_up;
    let packages = packages_of(completion->output, exclusions.to_set());
    lemma_package_list_members(tokens_of(completion->output), exclusions.to_set());
    if packages.len() > 0 {
        assert(packages.contains(packages[0]));
    }
    assert(follow_up.args + packages == follow_up.args);
}

} // verus!
