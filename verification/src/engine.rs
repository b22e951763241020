//! Gathering the outcomes of all jobs of one run into a report.
//!
//! Every job reports exactly one outcome, in whatever order the jobs happen
//! to end. The [`Collector`] takes the outcomes as they arrive and hands out
//! the [`Report`] only when every job has reported.

use vstd::prelude::*;
use crate::outcome::{Cause, Outcome};

verus! {

/// How many of `slots` are filled.
pub open spec fn filled(slots: Seq<Option<Outcome>>) -> nat
    decreases slots.len(),
{
    if slots.len() == 0 {
        0
    } else {
        filled(slots.drop_last()) + if slots.last() is Some {
            1nat
        } else {
            0nat
        }
    }
}

/// At most every slot is filled, and all are counted exactly if none is empty.
pub proof fn lemma_filled_bounds(slots: Seq<Option<Outcome>>)
    ensures
        filled(slots) <= slots.len(),
        filled(slots) == slots.len() <==> forall|i: int|
            0 <= i < slots.len() ==> (#[trigger] slots[i]) is Some,
        filled(slots) == 0 <==> forall|i: int|
            0 <= i < slots.len() ==> (#[trigger] slots[i]) is None,
    decreases slots.len(),
{
    if slots.len() > 0 {
        let earlier = slots.drop_last();
        lemma_filled_bounds(earlier);
        if filled(slots) == slots.len() {
            assert forall|i: int| 0 <= i < slots.len() implies (#[trigger] slots[i]) is Some by {
                if i < earlier.len() {
                    assert(earlier[i] is Some);
                }
            }
        } else if forall|i: int| 0 <= i < slots.len() ==> (#[trigger] slots[i]) is Some {
            assert forall|i: int| 0 <= i < earlier.len() implies (#[trigger] earlier[i]) is Some by {
                assert(slots[i] is Some);
            }
            assert(slots[slots.len() - 1] is Some);
        }
        if filled(slots) == 0 {
            assert forall|i: int| 0 <= i < slots.len() implies (#[trigger] slots[i]) is None by {
                if i < earlier.len() {
                    assert(earlier[i] is None);
                }
            }
        } else if forall|i: int| 0 <= i < slots.len() ==> (#[trigger] slots[i]) is None {
            assert forall|i: int| 0 <= i < earlier.len() implies (#[trigger] earlier[i]) is None by {
                assert(slots[i] is None);
            }
            assert(slots[slots.len() - 1] is None);
        }
    }
}

/// Filling an empty slot adds one to the count.
pub proof fn lemma_fill_adds_one(slots: Seq<Option<Outcome>>, job: int, outcome: Outcome)
    requires
        0 <= job < slots.len(),
        slots[job] is None,
    ensures
        filled(slots.update(job, Some(outcome))) == filled(slots) + 1,
    decreases slots.len(),
{
    let after = slots.update(job, Some(outcome));
    if job == slots.len() - 1 {
        assert(after.drop_last() == slots.drop_last());
    } else {
        assert(after.drop_last() == slots.drop_last().update(job, Some(outcome)));
        lemma_fill_adds_one(slots.drop_last(), job, outcome);
    }
}

/// Why an outcome was not taken.
#[derive(Clone, Copy, Debug, PartialEq, Eq, Structural)]
pub enum RecordError {
    /// No job of the run has this index.
    UnknownJob,
    /// The job has reported before; its first outcome stands.
    AlreadyReported,
}

/// Whether the outcome of the job with index `job` is taken, given the slots
/// so far.
pub open spec fn judge(slots: Seq<Option<Outcome>>, job: int) -> Result<(), RecordError> {
    if !(0 <= job < slots.len()) {
        Err(RecordError::UnknownJob)
    } else if slots[job] is Some {
        Err(RecordError::AlreadyReported)
    } else {
        Ok(())
    }
}

/// The slots after `outcome` has come in for the job with index `job`: the
/// job's slot is filled if the outcome is taken, and nothing changes if not.
pub open spec fn deliver(slots: Seq<Option<Outcome>>, job: int, outcome: Outcome) -> Seq<
    Option<Outcome>,
> {
    if judge(slots, job) is Ok {
        slots.update(job, Some(outcome))
    } else {
        slots
    }
}

/// The outcomes of all jobs of one finished run, in the order of the job list.
#[derive(Debug, PartialEq, Eq)]
pub struct Report {
    outcomes: Vec<Outcome>,
}

impl View for Report {
    type V = Seq<Outcome>;

    closed spec fn view(&self) -> Seq<Outcome> {
        self.outcomes@
    }
}

/// The outcomes of one run as they come in: one slot per job, in the order of
/// the job list.
#[derive(Debug)]
pub struct Collector {
    slots: Vec<Option<Outcome>>,
    received: usize,
}

impl View for Collector {
    type V = Seq<Option<Outcome>>;

    closed spec fn view(&self) -> Seq<Option<Outcome>> {
        self.slots@
    }
}

impl Collector {
    /// The count of the outcomes received is the number of filled slots.
    #[verifier::type_invariant]
    spec fn counted(self) -> bool {
        self.received == filled(self.slots@)
    }

    /// The collector for a run of `jobs` jobs, none of which has reported.
    pub fn new(jobs: usize) -> (collector: Collector)
        ensures
            collector@ == Seq::new(jobs as nat, |i: int| None::<Outcome>),
    {
        let mut slots: Vec<Option<Outcome>> = Vec::new();
        let mut i: usize = 0;
        while i < jobs
            invariant
                i <= jobs,
                slots@ == Seq::new(i as nat, |k: int| None::<Outcome>),
            decreases jobs - i,
        {
            slots.push(None);
            i += 1;
        }
        proof {
            lemma_filled_bounds(slots@);
        }
        Collector { slots, received: 0 }
    }

    /// How many jobs the run has.
    pub fn expected(&self) -> (jobs: usize)
        ensures
            jobs == self@.len(),
    {
        self.slots.len()
    }

    /// How many jobs have reported.
    pub fn received(&self) -> (count: usize)
        ensures
            count == filled(self@),
    {
        proof {
            use_type_invariant(self);
        }
        self.received
    }

    /// How many jobs have yet to report.
    pub fn pending(&self) -> (count: usize)
        ensures
            count == self@.len() - filled(self@),
    {
        proof {
            use_type_invariant(self);
            lemma_filled_bounds(self.slots@);
        }
        self.slots.len() - self.received
    }

    /// Whether every job has reported: only then is the run over.
    pub fn is_complete(&self) -> (complete: bool)
        ensures
            complete == (filled(self@) == self@.len()),
            complete == forall|i: int| 0 <= i < self@.len() ==> (#[trigger] self@[i]) is Some,
    {
        proof {
            use_type_invariant(self);
            lemma_filled_bounds(self.slots@);
        }
        self.received == self.slots.len()
    }

    /// Takes the outcome of the job with index `job`, whatever it is and
    /// whichever jobs have reported before. An index that no job has, and a
    /// second outcome for one job, are refused and change nothing.
    pub fn record(&mut self, job: usize, outcome: Outcome) -> (result: Result<(), RecordError>)
        ensures
            final(self)@ == deliver(old(self)@, job as int, outcome),
            result == judge(old(self)@, job as int),
    {
        if job >= self.slots.len() {
            return Err(RecordError::UnknownJob);
        }
        if self.slots[job].is_some() {
            return Err(RecordError::AlreadyReported);
        }
        proof {
            use_type_invariant(&*self);
            lemma_filled_bounds(self.slots@);
            lemma_fill_adds_one(self.slots@, job as int, outcome);
        }
        let mut taken = Collector { slots: Vec::new(), received: 0 };
        std::mem::swap(self, &mut taken);
        let Collector { mut slots, received } = taken;
        slots.set(job, Some(outcome));
        *self = Collector { slots, received: received + 1 };
        Ok(())
    }

    /// The report of the run: `None` as long as a job has yet to report.
    /// The report holds one outcome per job, each job's own.
    pub fn report(&self) -> (report: Option<Report>)
        ensures
            report is Some <==> filled(self@) == self@.len(),
            report matches Some(r) ==> r@.len() == self@.len() && forall|i: int|
                0 <= i < self@.len() ==> self@[i] == Some(#[trigger] r@[i]),
    {
        if !self.is_complete() {
            return None;
        }
        let mut outcomes: Vec<Outcome> = Vec::new();
        let mut i: usize = 0;
        while i < self.slots.len()
            invariant
                i <= self.slots.len(),
                forall|k: int| 0 <= k < self.slots.len() ==> (#[trigger] self.slots@[k]) is Some,
                outcomes.len() == i,
                forall|k: int| 0 <= k < i ==> self.slots@[k] == Some(#[trigger] outcomes@[k]),
            decreases self.slots.len() - i,
        {
            assert(self.slots@[i as int] is Some);
            if let Some(outcome) = self.slots[i] {
                outcomes.push(outcome);
            }
            i += 1;
        }
        Some(Report { outcomes })
    }
}

/// What to make of failed jobs when the process ends.
#[derive(Clone, Copy, Debug, PartialEq, Eq, Structural)]
pub enum ExitPolicy {
    /// End with status zero whatever the jobs did; failures are only reported.
    AlwaysSucceed,
    /// End with status one if any job failed.
    FailOnFailure,
}

impl Report {
    /// Some job of the report failed.
    pub open spec fn any_failed(self) -> bool {
        exists|i: int| 0 <= i < self@.len() && (#[trigger] self@[i]).failed()
    }

    /// The status with which the process is to end under `policy`.
    pub open spec fn exit_status(self, policy: ExitPolicy) -> i32 {
        if policy == ExitPolicy::FailOnFailure && self.any_failed() {
            1
        } else {
            0
        }
    }

    /// The number of outcomes, which is the number of jobs of the run.
    pub fn len(&self) -> (n: usize)
        ensures
            n == self@.len(),
    {
        self.outcomes.len()
    }

    /// The outcome of the job with index `job`, if the run had such a job.
    pub fn get(&self, job: usize) -> (outcome: Option<Outcome>)
        ensures
            outcome == if job < self@.len() {
                Some(self@[job as int])
            } else {
                None
            },
    {
        if job < self.outcomes.len() {
            Some(self.outcomes[job])
        } else {
            None
        }
    }

    /// The indices of the jobs that failed, in rising order.
    pub fn failed_jobs(&self) -> (failed: Vec<usize>)
        ensures
            forall|k: int|
                0 <= k < failed.len() ==> (#[trigger] failed[k]) < self@.len()
                    && self@[failed[k] as int].failed(),
            forall|a: int, b: int| 0 <= a < b < failed.len() ==> failed[a] < failed[b],
            forall|i: int|
                0 <= i < self@.len() && (#[trigger] self@[i]).failed() ==> failed@.contains(
                    i as usize,
                ),
    {
        let mut failed: Vec<usize> = Vec::new();
        let mut i: usize = 0;
        while i < self.outcomes.len()
            invariant
                i <= self.outcomes.len(),
                forall|k: int|
                    0 <= k < failed.len() ==> (#[trigger] failed[k]) < i
                        && self@[failed[k] as int].failed(),
                forall|a: int, b: int| 0 <= a < b < failed.len() ==> failed[a] < failed[b],
                forall|j: int|
                    0 <= j < i && (#[trigger] self@[j]).failed() ==> failed@.contains(j as usize),
            decreases self.outcomes.len() - i,
        {
            if self.outcomes[i].is_failure() {
                let ghost before = failed@;
                failed.push(i);
                assert(failed@[before.len() as int] == i);
                assert forall|j: int|
                    0 <= j < i + 1 && (#[trigger] self@[j]).failed() implies failed@.contains(
                    j as usize,
                ) by {
                    if j < i {
                        let k = choose|k: int| 0 <= k < before.len() && before[k] == j as usize;
                        assert(failed@[k] == j as usize);
                    }
                }
            }
            i += 1;
        }
        failed
    }

    /// Whether no job failed.
    pub fn all_succeeded(&self) -> (ok: bool)
        ensures
            ok == !self.any_failed(),
    {
        let mut i: usize = 0;
        while i < self.outcomes.len()
            invariant
                i <= self.outcomes.len(),
                forall|k: int| 0 <= k < i ==> !(#[trigger] self@[k]).failed(),
            decreases self.outcomes.len() - i,
        {
            if self.outcomes[i].is_failure() {
                assert(self@[i as int].failed());
                return false;
            }
            i += 1;
        }
        true
    }

    /// The status with which the process is to end under `policy`: one if the
    /// policy asks for it and a job failed, zero otherwise.
    pub fn exit_code(&self, policy: ExitPolicy) -> (code: i32)
        ensures
            code == self.exit_status(policy),
    {
        match policy {
            ExitPolicy::AlwaysSucceed => 0,
            ExitPolicy::FailOnFailure => if self.all_succeeded() {
                0
            } else {
                1
            },
        }
    }
}

/// The slots of a run of `jobs` jobs after the outcomes in `arrivals` have
/// come in, in this order. Each arrival is the index of a job and its outcome.
pub open spec fn collect(jobs: nat, arrivals: Seq<(int, Outcome)>) -> Seq<Option<Outcome>>
    decreases arrivals.len(),
{
    if arrivals.len() == 0 {
        Seq::new(jobs, |i: int| None::<Outcome>)
    } else {
        deliver(collect(jobs, arrivals.drop_last()), arrivals.last().0, arrivals.last().1)
    }
}

/// Each of the `jobs` jobs reports exactly once, in any order.
pub open spec fn each_job_once(jobs: nat, arrivals: Seq<(int, Outcome)>) -> bool {
    &&& arrivals.len() == jobs
    &&& forall|k: int| 0 <= k < arrivals.len() ==> 0 <= (#[trigger] arrivals[k]).0 < jobs
    &&& forall|a: int, b: int|
        0 <= a < b < arrivals.len() ==> (#[trigger] arrivals[a]).0 != (#[trigger] arrivals[b]).0
}

/// After the first `n` arrivals of a run in which no job reports twice, `n`
/// slots are filled: those of the jobs that have reported, each with the
/// job's outcome.
proof fn lemma_collect_prefix(jobs: nat, arrivals: Seq<(int, Outcome)>, n: int)
    requires
        0 <= n <= arrivals.len(),
        forall|k: int| 0 <= k < arrivals.len() ==> 0 <= (#[trigger] arrivals[k]).0 < jobs,
        forall|a: int, b: int|
            0 <= a < b < arrivals.len() ==> (#[trigger] arrivals[a]).0 != (#[trigger] arrivals[b]).0,
    ensures
        collect(jobs, arrivals.take(n)).len() == jobs,
        filled(collect(jobs, arrivals.take(n))) == n,
        forall|k: int|
            0 <= k < n ==> collect(jobs, arrivals.take(n))[(#[trigger] arrivals[k]).0] == Some(
                arrivals[k].1,
            ),
        forall|j: int|
            0 <= j < jobs && (forall|k: int| 0 <= k < n ==> (#[trigger] arrivals[k]).0 != j)
                ==> (#[trigger] collect(jobs, arrivals.take(n))[j]) is None,
    decreases n,
{
    let now = collect(jobs, arrivals.take(n));
    if n == 0 {
        lemma_filled_bounds(now);
    } else {
        let before = collect(jobs, arrivals.take(n - 1));
        let (job, outcome) = arrivals[n - 1];
        lemma_collect_prefix(jobs, arrivals, n - 1);
        assert(arrivals.take(n).drop_last() == arrivals.take(n - 1));
        assert(arrivals.take(n).last() == arrivals[n - 1]);
        assert(before[job] is None);
        assert(now == before.update(job, Some(outcome)));
        lemma_fill_adds_one(before, job, outcome);
        assert forall|k: int| 0 <= k < n implies now[(#[trigger] arrivals[k]).0] == Some(
            arrivals[k].1,
        ) by {
            if k < n - 1 {
                assert(arrivals[k].0 != arrivals[n - 1].0);
            }
        }
    }
}

/// Whatever the number of jobs, whatever each job's outcome and in whatever
/// order the jobs end: once each job has reported, the run is complete and
/// the slots hold one outcome per job, the job's own. Before the last job has
/// reported the run is not complete.
pub proof fn lemma_one_outcome_per_job(jobs: nat, arrivals: Seq<(int, Outcome)>)
    requires
        each_job_once(jobs, arrivals),
    ensures
        collect(jobs, arrivals).len() == jobs,
        filled(collect(jobs, arrivals)) == jobs,
        forall|j: int| 0 <= j < jobs ==> (#[trigger] collect(jobs, arrivals)[j]) is Some,
        forall|k: int|
            0 <= k < arrivals.len() ==> collect(jobs, arrivals)[(#[trigger] arrivals[k]).0] == Some(
                arrivals[k].1,
            ),
        forall|n: int|
            0 <= n < jobs ==> filled(#[trigger] collect(jobs, arrivals.take(n))) < jobs,
{
    lemma_collect_prefix(jobs, arrivals, arrivals.len() as int);
    assert(arrivals.take(arrivals.len() as int) == arrivals);
    lemma_filled_bounds(collect(jobs, arrivals));
    assert forall|n: int| 0 <= n < jobs implies filled(
        #[trigger] collect(jobs, arrivals.take(n)),
    ) < jobs by {
        lemma_collect_prefix(jobs, arrivals, n);
    }
}

/// A job that fails takes nothing from the others: its failure fills its own
/// slot only, another job's outcome is taken or refused as it would have been
/// without the failure, and the slots end up the same whichever of the two
/// reports first.
pub proof fn lemma_failure_leaves_other_jobs_alone(
    slots: Seq<Option<Outcome>>,
    failed: int,
    cause: Cause,
    other: int,
    outcome: Outcome,
)
    requires
        failed != other,
    ensures
        0 <= other < slots.len() ==> deliver(slots, failed, Outcome::Failure(cause))[other]
            == slots[other],
        judge(deliver(slots, failed, Outcome::Failure(cause)), other) == judge(slots, other),
        deliver(deliver(slots, failed, Outcome::Failure(cause)), other, outcome) == deliver(
            deliver(slots, other, outcome),
            failed,
            Outcome::Failure(cause),
        ),
{
}

/// Two runs over the same number of jobs give two reports of that length,
/// and each report holds what came in during its own run: nothing of one run
/// shows in the other.
pub proof fn lemma_runs_are_independent(
    jobs: nat,
    first: Seq<(int, Outcome)>,
    second: Seq<(int, Outcome)>,
)
    requires
        each_job_once(jobs, first),
        each_job_once(jobs, second),
    ensures
        collect(jobs, first).len() == jobs,
        collect(jobs, second).len() == jobs,
        filled(collect(jobs, first)) == jobs,
        filled(collect(jobs, second)) == jobs,
        forall|k: int|
            0 <= k < jobs ==> collect(jobs, first)[(#[trigger] first[k]).0] == Some(first[k].1),
        forall|k: int|
            0 <= k < jobs ==> collect(jobs, second)[(#[trigger] second[k]).0] == Some(second[k].1),
{
    lemma_one_outcome_per_job(jobs, first);
    lemma_one_outcome_per_job(jobs, second);
}

} // verus!
