use jsh::job_control::{
    actual_process_group, child_group_target, pipeline_group, pipeline_leader, stage_processes, termination_target,
    JobControlMode, SignalTarget,
    pipeline_result, Job, JobId, JobLookupError, JobStage, JobState, JobTable, ProcessRecord,
    ProcessState, RuntimeStage, StageOutcome, WaitEvent,
};

const SIGTSTP: u8 = 20;
const SIGKILL: u8 = 9;

#[test]
fn job_is_stopped_only_after_every_live_process_stops() {
    let first = 101;
    let second = 102;
    let mut job = Job::new(
        JobId(1),
        first,
        "left | right".into(),
        vec![JobStage::Process(first), JobStage::Process(second)],
    );

    assert!(job.apply_wait_status(WaitEvent::Stopped(first, SIGTSTP)));
    assert_eq!(job.state, JobState::Running);
    assert!(job.apply_wait_status(WaitEvent::Stopped(second, SIGTSTP)));
    assert_eq!(job.state, JobState::Stopped);
}

#[test]
fn pipeline_status_comes_from_the_last_stage() {
    let mut job = Job::new(
        JobId(1),
        101,
        "left | right".into(),
        vec![JobStage::Completed(9), JobStage::Completed(3)],
    );

    job.recompute_state();
    assert_eq!(job.state, JobState::Done);
    assert_eq!(job.status_code(), 3);
    assert!(matches!(job.stages[0], RuntimeStage::Completed(9)));
}

#[test]
fn an_event_for_another_process_is_not_taken() {
    let mut job = Job::new(JobId(1), 101, "sleep".into(), vec![JobStage::Process(101)]);
    assert!(!job.apply_wait_status(WaitEvent::Exited(999, 0)));
    assert!(!job.apply_wait_status(WaitEvent::StillAlive));
    assert!(!job.apply_wait_status(WaitEvent::Traced(101)));
    assert_eq!(job.state, JobState::Running);
}

#[test]
fn a_killed_process_ends_with_128_plus_the_signal() {
    let mut job = Job::new(JobId(2), 7, "sleep 10".into(), vec![JobStage::Process(7)]);
    assert!(job.apply_wait_status(WaitEvent::Signaled(7, SIGKILL)));
    assert_eq!(job.state, JobState::Done);
    assert_eq!(job.status_code(), 137);
    assert_eq!(WaitEvent::Signaled(7, SIGKILL).termination_status(), Some(137));
    assert_eq!(WaitEvent::Exited(7, 4).termination_status(), Some(4));
    assert_eq!(WaitEvent::Stopped(7, SIGTSTP).termination_status(), None);
    assert_eq!(WaitEvent::Continued(7).pid(), Some(7));
    assert_eq!(WaitEvent::StillAlive.pid(), None);
}

#[test]
fn a_stopped_last_stage_gives_128_plus_the_signal() {
    let mut job = Job::new(JobId(1), 5, "vim".into(), vec![JobStage::Process(5)]);
    job.apply_wait_status(WaitEvent::Stopped(5, SIGTSTP));
    assert_eq!(job.status_code(), 148);
    job.mark_running();
    assert_eq!(job.state, JobState::Running);
    assert_eq!(
        job.stages[0],
        RuntimeStage::Process(ProcessRecord { pid: 5, state: ProcessState::Running })
    );
}

#[test]
fn display_line_pads_the_state() {
    let job = Job::new(JobId(12), 5, "sleep 5".into(), vec![JobStage::Process(5)]);
    assert_eq!(job.display_line(), "[12] Running sleep 5");
    let done = Job::new(JobId(3), 5, "true".into(), vec![JobStage::Completed(0)]);
    assert_eq!(done.display_line(), "[3] Done    true");
}

#[test]
fn job_numbers_count_up_from_one() {
    let mut table = JobTable::new();
    assert_eq!(table.register_job(10, "a".into(), vec![JobStage::Process(10)]), JobId(1));
    assert_eq!(table.register_job(20, "b".into(), vec![JobStage::Process(20)]), JobId(2));
    assert_eq!(table.job_status(JobId(2)), Some((20, JobState::Running)));
    assert_eq!(table.job_status(JobId(3)), None);
    assert_eq!(table.process_groups(), vec![10, 20]);
}

#[test]
fn wait_events_reach_the_job_that_owns_the_process() {
    let mut table = JobTable::new();
    let a = table.register_job(10, "a | b".into(), vec![JobStage::Process(10), JobStage::Process(11)]);
    let b = table.register_job(20, "c".into(), vec![JobStage::Process(20)]);
    table.apply_wait_status(WaitEvent::Stopped(20, SIGTSTP));
    assert_eq!(table.job_status(b), Some((20, JobState::Stopped)));
    assert_eq!(table.job_status(a), Some((10, JobState::Running)));
    table.apply_wait_status(WaitEvent::Exited(10, 0));
    table.apply_wait_status(WaitEvent::Exited(11, 2));
    assert_eq!(table.job_status(a), Some((10, JobState::Done)));
}

#[test]
fn notifications_report_each_change_once_and_drop_done_jobs() {
    let mut table = JobTable::new();
    let a = table.register_job(10, "sleep 1".into(), vec![JobStage::Process(10)]);
    let b = table.register_job(20, "vim".into(), vec![JobStage::Process(20)]);
    table.apply_wait_status(WaitEvent::Exited(10, 0));
    table.apply_wait_status(WaitEvent::Stopped(20, SIGTSTP));
    assert_eq!(
        table.take_notifications(),
        vec!["[1] Done    sleep 1".to_owned(), "[2] Stopped vim".to_owned()]
    );
    assert!(table.take_notifications().is_empty());
    assert_eq!(table.job_status(a), None);
    assert_eq!(table.job_status(b), Some((20, JobState::Stopped)));
}

#[test]
fn listing_jobs_drops_the_done_ones() {
    let mut table = JobTable::new();
    table.register_job(10, "sleep 1".into(), vec![JobStage::Process(10)]);
    table.register_job(20, "sleep 2".into(), vec![JobStage::Process(20)]);
    table.apply_wait_status(WaitEvent::Exited(10, 0));
    assert_eq!(
        table.list_jobs(),
        vec!["[1] Done    sleep 1".to_owned(), "[2] Running sleep 2".to_owned()]
    );
    assert_eq!(table.list_jobs(), vec!["[2] Running sleep 2".to_owned()]);
}

#[test]
fn job_specifications_resolve_by_number_or_by_default() {
    let mut table = JobTable::new();
    assert_eq!(table.resolve_job_id(None, false), Err(JobLookupError::NoCurrentJob));
    table.register_job(10, "a".into(), vec![JobStage::Process(10)]);
    table.register_job(20, "b".into(), vec![JobStage::Process(20)]);
    table.apply_wait_status(WaitEvent::Stopped(10, SIGTSTP));
    assert_eq!(table.resolve_job_id(None, false), Ok(JobId(2)));
    assert_eq!(table.resolve_job_id(None, true), Ok(JobId(1)));
    assert_eq!(table.resolve_job_id(Some("%2"), true), Ok(JobId(2)));
    assert_eq!(table.resolve_job_id(Some("%7"), false), Err(JobLookupError::UnknownJob(JobId(7))));
    assert_eq!(
        table.resolve_job_id(Some("2"), false),
        Err(JobLookupError::InvalidJobSpec("2".into()))
    );
    assert_eq!(
        table.resolve_job_id(Some("%x"), false),
        Err(JobLookupError::InvalidJobSpec("%x".into()))
    );
}

#[test]
fn bg_needs_a_stopped_job_and_fg_takes_any() {
    let mut table = JobTable::new();
    let a = table.register_job(10, "a".into(), vec![JobStage::Process(10)]);
    assert_eq!(table.background_target(Some("%1")), Err(JobLookupError::JobNotStopped(a)));
    assert_eq!(table.background_target(None), Err(JobLookupError::NoCurrentJob));
    assert_eq!(table.foreground_target(None), Ok((a, 10, false)));
    table.apply_wait_status(WaitEvent::Stopped(10, SIGTSTP));
    assert_eq!(table.background_target(None), Ok((a, 10)));
    assert_eq!(table.foreground_target(Some("%1")), Ok((a, 10, true)));
    assert_eq!(table.mark_job_running(a), Some("[1] Running a".to_owned()));
    assert_eq!(table.job_status(a), Some((10, JobState::Running)));
    assert_eq!(table.mark_job_running(JobId(9)), None);
}

#[test]
fn finishing_a_foreground_job_gives_its_status() {
    let mut table = JobTable::new();
    let a = table.register_job(10, "a | b".into(), vec![JobStage::Process(10), JobStage::Process(11)]);
    table.apply_wait_status(WaitEvent::Exited(10, 1));
    table.apply_wait_status(WaitEvent::Exited(11, 5));
    assert_eq!(table.finish_foreground(a), Ok(5));
    assert_eq!(table.job_status(a), None);
    assert_eq!(table.finish_foreground(a), Err(JobLookupError::UnknownJob(a)));
}

#[test]
fn clearing_the_table_keeps_numbering() {
    let mut table = JobTable::new();
    table.register_job(10, "a".into(), vec![JobStage::Process(10)]);
    table.clear();
    assert!(table.active_jobs().is_empty());
    assert_eq!(table.register_job(20, "b".into(), vec![JobStage::Process(20)]), JobId(2));
}

#[test]
fn the_first_failed_wait_fails_the_pipeline() {
    assert_eq!(
        pipeline_result(&vec![StageOutcome::Status(1), StageOutcome::Status(0)]),
        Ok(0)
    );
    assert_eq!(
        pipeline_result(&vec![StageOutcome::Status(0), StageOutcome::Status(4)]),
        Ok(4)
    );
    assert_eq!(
        pipeline_result(&vec![
            StageOutcome::Status(0),
            StageOutcome::WaitFailed(2),
            StageOutcome::WaitFailed(3)
        ]),
        Err(2)
    );
    assert_eq!(pipeline_result(&vec![]), Ok(0));
}

#[test]
fn process_groups_follow_the_job_control_mode() {
    assert_eq!(child_group_target(JobControlMode::NonInteractive, Some(5)), None);
    assert_eq!(child_group_target(JobControlMode::Interactive, None), Some(0));
    assert_eq!(child_group_target(JobControlMode::Interactive, Some(42)), Some(42));
    assert_eq!(child_group_target(JobControlMode::Subshell(9), Some(42)), Some(9));
    assert_eq!(actual_process_group(100, None), 100);
    assert_eq!(actual_process_group(100, Some(0)), 100);
    assert_eq!(actual_process_group(100, Some(7)), 7);
    assert_eq!(
        pipeline_leader(&vec![JobStage::Completed(0), JobStage::Process(33), JobStage::Process(34)]),
        Some(33)
    );
    assert_eq!(pipeline_leader(&vec![JobStage::Completed(1)]), None);
}

#[test]
fn lookup_failures_have_diagnostics() {
    assert_eq!(JobLookupError::NoCurrentJob.message(), "no current job");
    assert_eq!(
        JobLookupError::InvalidJobSpec("x".into()).message(),
        "invalid job specification `x`"
    );
    assert_eq!(JobLookupError::UnknownJob(JobId(12)).message(), "job %12 does not exist");
    assert_eq!(JobLookupError::JobNotStopped(JobId(3)).message(), "job %3 is not stopped");
}

#[test]
fn a_failed_pipeline_is_stopped_through_its_group_or_its_processes() {
    let stages = vec![JobStage::Process(10), JobStage::Completed(127), JobStage::Process(11)];
    assert_eq!(stage_processes(&stages), vec![10, 11]);
    assert_eq!(
        termination_target(JobControlMode::Interactive, &stages, Some(10)),
        SignalTarget::Group(10)
    );
    assert_eq!(
        termination_target(JobControlMode::Subshell(7), &stages, Some(7)),
        SignalTarget::Group(7)
    );
    assert_eq!(
        termination_target(JobControlMode::Interactive, &stages, None),
        SignalTarget::Processes(vec![10, 11])
    );
    assert_eq!(
        termination_target(JobControlMode::NonInteractive, &stages, Some(10)),
        SignalTarget::Processes(vec![10, 11])
    );
}

#[test]
fn a_pipeline_has_a_group_only_under_job_control() {
    assert_eq!(pipeline_group(JobControlMode::NonInteractive, 10), None);
    assert_eq!(pipeline_group(JobControlMode::Interactive, 10), Some(10));
    assert_eq!(pipeline_group(JobControlMode::Subshell(7), 10), Some(7));
}
