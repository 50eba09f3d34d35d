use apidesk::scheduler::{remove_task, schedule_task, task_done, BackgroundTask, JobState, CHECK_DIRTY_COOLDOWN};

#[test]
fn second_schedule_is_refused_until_done_and_cooled_down() {
    let mut jobs: Vec<JobState> = Vec::new();
    let t = BackgroundTask::CheckDirtyRequests;
    assert!(schedule_task(&mut jobs, t, 2, 100));
    assert!(!schedule_task(&mut jobs, t, 2, 100));
    assert!(!schedule_task(&mut jobs, t, 2, 500));
    task_done(&mut jobs, t);
    assert!(!schedule_task(&mut jobs, t, 2, 101));
    assert!(!schedule_task(&mut jobs, t, 2, 102));
    assert!(schedule_task(&mut jobs, t, 2, 103));
    assert_eq!(jobs.len(), 1);
    assert_eq!(jobs[0].started, 103);
    assert!(!jobs[0].done);
}

#[test]
fn zero_delay_reschedules_one_second_after_done() {
    let mut jobs: Vec<JobState> = Vec::new();
    let t = BackgroundTask::SaveCollections;
    assert!(schedule_task(&mut jobs, t, 0, 10));
    task_done(&mut jobs, t);
    assert!(!schedule_task(&mut jobs, t, 0, 10));
    assert!(schedule_task(&mut jobs, t, 0, 11));
}

#[test]
fn kinds_are_tracked_separately() {
    let mut jobs: Vec<JobState> = Vec::new();
    assert!(schedule_task(&mut jobs, BackgroundTask::SaveCollections, 0, 5));
    assert!(schedule_task(&mut jobs, BackgroundTask::CheckDirtyRequests, CHECK_DIRTY_COOLDOWN, 5));
    assert_eq!(jobs.len(), 2);
    task_done(&mut jobs, BackgroundTask::SaveCollections);
    let check = jobs.iter().find(|j| j.task == BackgroundTask::CheckDirtyRequests).unwrap();
    assert!(!check.done);
}

#[test]
fn removed_slot_can_be_scheduled_again() {
    let mut jobs: Vec<JobState> = Vec::new();
    let t = BackgroundTask::SaveCollections;
    assert!(schedule_task(&mut jobs, t, 10, 0));
    remove_task(&mut jobs, t);
    assert!(jobs.is_empty());
    assert!(schedule_task(&mut jobs, t, 10, 1));
}

#[test]
fn clock_reading_earlier_counts_as_no_time() {
    let mut jobs: Vec<JobState> = Vec::new();
    let t = BackgroundTask::SaveCollections;
    assert!(schedule_task(&mut jobs, t, 0, 50));
    task_done(&mut jobs, t);
    assert!(!schedule_task(&mut jobs, t, 0, 40));
}
