use upkeep::engine::{Collector, ExitPolicy, RecordError, Report};
use upkeep::outcome::{Cause, Outcome};

const OK: Outcome = Outcome::Success { code: 0 };

fn launch_failure() -> Outcome {
    Outcome::Failure(Cause::LaunchFailure { os_error: Some(2) })
}

fn exit(code: i32) -> Outcome {
    Outcome::Failure(Cause::NonZeroExit { code: Some(code) })
}

fn collect(jobs: usize, arrivals: &[(usize, Outcome)]) -> Report {
    let mut collector = Collector::new(jobs);
    for (job, outcome) in arrivals {
        assert!(!collector.is_complete());
        assert_eq!(collector.report(), None);
        assert_eq!(collector.record(*job, *outcome), Ok(()));
    }
    assert!(collector.is_complete());
    collector.report().unwrap()
}

#[test]
fn run_without_jobs_is_complete_at_once() {
    let collector = Collector::new(0);
    assert!(collector.is_complete());
    assert_eq!(collector.expected(), 0);
    assert_eq!(collector.pending(), 0);
    let report = collector.report().unwrap();
    assert_eq!(report.len(), 0);
    assert!(report.all_succeeded());
    assert_eq!(report.failed_jobs(), Vec::<usize>::new());
}

#[test]
fn report_has_one_outcome_per_job() {
    for jobs in 0..20usize {
        let arrivals: Vec<(usize, Outcome)> = (0..jobs)
            .map(|j| (j, if j % 3 == 0 { exit(j as i32 + 1) } else { OK }))
            .collect();
        let report = collect(jobs, &arrivals);
        assert_eq!(report.len(), jobs);
        for (job, outcome) in &arrivals {
            assert_eq!(report.get(*job), Some(*outcome));
        }
        assert_eq!(report.get(jobs), None);
    }
}

#[test]
fn report_does_not_depend_on_the_order_of_arrival() {
    let a = launch_failure();
    let b = OK;
    let c = exit(7);
    let orders: [[usize; 3]; 6] =
        [[0, 1, 2], [0, 2, 1], [1, 0, 2], [1, 2, 0], [2, 0, 1], [2, 1, 0]];
    let outcomes = [a, b, c];
    let expected = collect(3, &[(0, a), (1, b), (2, c)]);
    for order in orders {
        let arrivals: Vec<(usize, Outcome)> = order.iter().map(|j| (*j, outcomes[*j])).collect();
        let report = collect(3, &arrivals);
        assert_eq!(report, expected);
        assert_eq!(report.len(), 3);
    }
}

#[test]
fn run_is_not_complete_before_the_last_job_has_reported() {
    let mut collector = Collector::new(3);
    assert_eq!(collector.expected(), 3);
    assert_eq!(collector.received(), 0);
    assert_eq!(collector.pending(), 3);
    assert_eq!(collector.record(2, OK), Ok(()));
    assert_eq!(collector.received(), 1);
    assert_eq!(collector.pending(), 2);
    assert!(!collector.is_complete());
    assert_eq!(collector.report(), None);
    assert_eq!(collector.record(0, exit(1)), Ok(()));
    assert!(!collector.is_complete());
    assert_eq!(collector.report(), None);
    assert_eq!(collector.record(1, OK), Ok(()));
    assert_eq!(collector.received(), 3);
    assert_eq!(collector.pending(), 0);
    assert!(collector.is_complete());
    assert_eq!(collector.report().unwrap().len(), 3);
}

#[test]
fn launch_failure_in_one_job_leaves_the_others_alone() {
    let mut collector = Collector::new(4);
    assert_eq!(collector.record(1, launch_failure()), Ok(()));
    assert_eq!(collector.record(0, OK), Ok(()));
    assert_eq!(collector.record(3, OK), Ok(()));
    assert_eq!(collector.record(2, exit(5)), Ok(()));
    let report = collector.report().unwrap();
    assert_eq!(report.len(), 4);
    assert_eq!(report.get(0), Some(OK));
    assert_eq!(report.get(1), Some(launch_failure()));
    assert_eq!(report.get(2), Some(exit(5)));
    assert_eq!(report.get(3), Some(OK));
    assert_eq!(report.failed_jobs(), vec![1, 2]);
}

#[test]
fn failure_and_success_may_arrive_in_either_order() {
    let first = collect(2, &[(0, launch_failure()), (1, OK)]);
    let second = collect(2, &[(1, OK), (0, launch_failure())]);
    assert_eq!(first, second);
}

#[test]
fn second_outcome_of_one_job_is_refused() {
    let mut collector = Collector::new(2);
    assert_eq!(collector.record(0, exit(1)), Ok(()));
    assert_eq!(collector.record(0, OK), Err(RecordError::AlreadyReported));
    assert_eq!(collector.received(), 1);
    assert!(!collector.is_complete());
    assert_eq!(collector.record(1, OK), Ok(()));
    assert_eq!(collector.record(1, exit(2)), Err(RecordError::AlreadyReported));
    let report = collector.report().unwrap();
    assert_eq!(report.get(0), Some(exit(1)));
    assert_eq!(report.get(1), Some(OK));
}

#[test]
fn outcome_of_an_unknown_job_is_refused() {
    let mut collector = Collector::new(2);
    assert_eq!(collector.record(2, OK), Err(RecordError::UnknownJob));
    assert_eq!(collector.record(usize::MAX, OK), Err(RecordError::UnknownJob));
    assert_eq!(collector.received(), 0);
    let mut none = Collector::new(0);
    assert_eq!(none.record(0, OK), Err(RecordError::UnknownJob));
    assert!(none.is_complete());
}

#[test]
fn two_runs_give_two_reports_of_equal_length() {
    let first = collect(4, &[(3, OK), (1, launch_failure()), (0, OK), (2, exit(1))]);
    let second = collect(4, &[(0, OK), (1, OK), (2, OK), (3, OK)]);
    assert_eq!(first.len(), second.len());
    assert_eq!(first.len(), 4);
    assert_eq!(first.failed_jobs(), vec![1, 2]);
    assert_eq!(second.failed_jobs(), Vec::<usize>::new());
    assert!(second.all_succeeded());
    assert_eq!(second.get(1), Some(OK));
}

#[test]
fn failed_jobs_are_listed_in_rising_order() {
    let report = collect(
        5,
        &[(4, exit(4)), (0, launch_failure()), (2, OK), (3, exit(3)), (1, OK)],
    );
    assert_eq!(report.failed_jobs(), vec![0, 3, 4]);
    assert!(!report.all_succeeded());
}

#[test]
fn exit_code_follows_the_policy() {
    let failed = collect(2, &[(0, OK), (1, exit(1))]);
    assert_eq!(failed.exit_code(ExitPolicy::AlwaysSucceed), 0);
    assert_eq!(failed.exit_code(ExitPolicy::FailOnFailure), 1);
    let fine = collect(2, &[(0, OK), (1, OK)]);
    assert_eq!(fine.exit_code(ExitPolicy::AlwaysSucceed), 0);
    assert_eq!(fine.exit_code(ExitPolicy::FailOnFailure), 0);
    let empty = collect(0, &[]);
    assert_eq!(empty.exit_code(ExitPolicy::FailOnFailure), 0);
    let all = collect(2, &[(0, launch_failure()), (1, exit(1))]);
    assert_eq!(all.exit_code(ExitPolicy::FailOnFailure), 1);
}
