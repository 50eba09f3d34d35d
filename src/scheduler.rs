//! Deduplicating, cooldown-gated scheduling of background jobs: at most one
//! job of each kind is tracked at a time. Time is given in whole seconds on
//! the caller's monotonic clock.
use vstd::prelude::*;

verus! {

/// The kinds of recurring background job.
#[derive(Debug, Clone, Copy, PartialEq, Eq, Structural)]
pub enum BackgroundTask {
    SaveCollections,
    CheckDirtyRequests,
}

/// The slot of one job kind: whether its last run finished, and when it started.
#[derive(Debug, Clone, Copy)]
pub struct JobState {
    pub task: BackgroundTask,
    pub done: bool,
    pub started: u64,
}

/// Cooldown, in seconds, between two dirty-request checks.
pub const CHECK_DIRTY_COOLDOWN: u64 = 2;

/// At most one slot per job kind.
pub open spec fn jobs_wf(s: Seq<JobState>) -> bool {
    forall|i: int, j: int| 0 <= i < j < s.len() ==> s[i].task != s[j].task
}

pub open spec fn has_slot(s: Seq<JobState>, t: BackgroundTask) -> bool {
    exists|i: int| 0 <= i < s.len() && s[i].task == t
}

/// The slot held for job kind `t`, if any.
pub open spec fn slot(s: Seq<JobState>, t: BackgroundTask) -> Option<JobState> {
    if has_slot(s, t) {
        Some(s[choose|i: int| 0 <= i < s.len() && s[i].task == t])
    } else {
        None
    }
}

/// The slots of `s` other than those of job kind `t`, in order.
pub open spec fn other_jobs(s: Seq<JobState>, t: BackgroundTask) -> Seq<JobState> {
    s.filter(|j: JobState| j.task != t)
}

/// Seconds from `started` to `now`; zero if the clock reads earlier.
pub open spec fn elapsed(started: u64, now: u64) -> int {
    if now >= started {
        now - started
    } else {
        0
    }
}

/// Whether a job whose kind holds `job` may be launched at `now`.
pub open spec fn may_schedule(job: Option<JobState>, delay: u64, now: u64) -> bool {
    match job {
        None => true,
        Some(j) => j.done && elapsed(j.started, now) > delay,
    }
}

/// A slot after its job has been marked done.
pub open spec fn finished(job: Option<JobState>) -> Option<JobState> {
    match job {
        None => None,
        Some(j) => Some(JobState { done: true, ..j }),
    }
}

proof fn lemma_slot_at(s: Seq<JobState>, i: int)
    requires
        jobs_wf(s),
        0 <= i < s.len(),
    ensures
        slot(s, s[i].task) == Some(s[i]),
{
    let t = s[i].task;
    assert(has_slot(s, t));
    let k = choose|k: int| 0 <= k < s.len() && s[k].task == t;
    assert(k == i) by {
        if k < i {
            assert(s[k].task != s[i].task);
        } else if k > i {
            assert(s[i].task != s[k].task);
        }
    }
}

proof fn lemma_slot_absent(s: Seq<JobState>, t: BackgroundTask)
    requires
        forall|i: int| 0 <= i < s.len() ==> s[i].task != t,
    ensures
        slot(s, t) == None::<JobState>,
{
}

fn find_slot(jobs: &Vec<JobState>, task: BackgroundTask) -> (r: Option<usize>)
    requires
        jobs_wf(jobs@),
    ensures
        match r {
            Some(i) => i < jobs.len() && jobs@[i as int].task == task && slot(jobs@, task) == Some(jobs@[i as int]),
            None => slot(jobs@, task) == None::<JobState>,
        },
{
    let mut i: usize = 0;
    while i < jobs.len()
        invariant
            0 <= i <= jobs.len(),
            jobs_wf(jobs@),
            forall|k: int| 0 <= k < i ==> jobs@[k].task != task,
        decreases jobs.len() - i,
    {
        if jobs[i].task == task {
            proof {
                lemma_slot_at(jobs@, i as int);
            }
            return Some(i);
        }
        i = i + 1;
    }
    None
}

/// Evicts the slot of `task`, if any.
pub fn remove_task(jobs: &mut Vec<JobState>, task: BackgroundTask)
    requires
        jobs_wf(old(jobs)@),
    ensures
        jobs_wf(final(jobs)@),
        final(jobs)@ == other_jobs(old(jobs)@, task),
        slot(final(jobs)@, task) == None::<JobState>,
        forall|t: BackgroundTask| t != task ==> slot(#[trigger] final(jobs)@, t) == slot(old(jobs)@, t),
{
    let mut kept: Vec<JobState> = Vec::new();
    let mut i: usize = 0;
    while i < jobs.len()
        invariant
            0 <= i <= jobs.len(),
            jobs_wf(jobs@),
            jobs_wf(kept@),
            kept@ == other_jobs(jobs@.take(i as int), task),
            forall|k: int| 0 <= k < kept.len() ==> kept@[k].task != task,
            forall|k: int| 0 <= k < kept.len() ==> exists|m: int| 0 <= m < i && jobs@[m] == #[trigger] kept@[k],
            forall|m: int| 0 <= m < i && jobs@[m].task != task ==> exists|k: int| 0 <= k < kept.len() && #[trigger] kept@[k] == jobs@[m],
        decreases jobs.len() - i,
    {
        let j = jobs[i];
        proof {
            assert(jobs@.take(i + 1).drop_last() =~= jobs@.take(i as int));
            assert(jobs@.take(i + 1).last() == j);
            reveal(Seq::filter);
            assert(other_jobs(jobs@.take(i + 1), task) == if j.task != task {
                other_jobs(jobs@.take(i as int), task).push(j)
            } else {
                other_jobs(jobs@.take(i as int), task)
            });
        }
        if j.task != task {
            let ghost before = kept@;
            proof {
                assert forall|k: int| 0 <= k < before.len() implies before[k].task != j.task by {
                    let m = choose|m: int| 0 <= m < i && jobs@[m] == before[k];
                    assert(jobs@[m].task != jobs@[i as int].task);
                }
            }
            kept.push(j);
            proof {
                assert forall|k: int| 0 <= k < kept.len() implies exists|m: int| 0 <= m < i + 1 && jobs@[m] == #[trigger] kept@[k] by {
                    if k < before.len() {
                        assert(kept@[k] == before[k]);
                        let m = choose|m: int| 0 <= m < i && jobs@[m] == before[k];
                        assert(jobs@[m] == kept@[k]);
                    } else {
                        assert(jobs@[i as int] == kept@[k]);
                    }
                }
                assert forall|m: int| 0 <= m < i + 1 && jobs@[m].task != task implies exists|k: int| 0 <= k < kept.len() && #[trigger] kept@[k] == jobs@[m] by {
                    if m < i {
                        let k = choose|k: int| 0 <= k < before.len() && before[k] == jobs@[m];
                        assert(kept@[k] == jobs@[m]);
                    } else {
                        assert(kept@[before.len() as int] == jobs@[m]);
                    }
                }
            }
        }
        i = i + 1;
    }
    proof {
        assert(jobs@.take(jobs.len() as int) =~= jobs@);
        lemma_slot_absent(kept@, task);
        assert forall|t: BackgroundTask| t != task implies slot(#[trigger] kept@, t) == slot(jobs@, t) by {
            if has_slot(jobs@, t) {
                let m = choose|m: int| 0 <= m < jobs.len() && jobs@[m].task == t;
                lemma_slot_at(jobs@, m);
                let k = choose|k: int| 0 <= k < kept.len() && #[trigger] kept@[k] == jobs@[m];
                lemma_slot_at(kept@, k);
            } else {
                assert forall|k: int| 0 <= k < kept.len() implies kept@[k].task != t by {
                    let m = choose|m: int| 0 <= m < jobs.len() && jobs@[m] == #[trigger] kept@[k];
                }
                lemma_slot_absent(kept@, t);
            }
        }
    }
    *jobs = kept;
}

/// Marks the slot of `task` done, if there is one.
pub fn task_done(jobs: &mut Vec<JobState>, task: BackgroundTask)
    requires
        jobs_wf(old(jobs)@),
    ensures
        jobs_wf(final(jobs)@),
        has_slot(old(jobs)@, task) ==> exists|i: int|
            0 <= i < old(jobs)@.len() && old(jobs)@[i].task == task && final(jobs)@ == old(jobs)@.update(
                i,
                JobState { done: true, ..old(jobs)@[i] },
            ),
        !has_slot(old(jobs)@, task) ==> final(jobs)@ == old(jobs)@,
        slot(final(jobs)@, task) == finished(slot(old(jobs)@, task)),
        forall|t: BackgroundTask| t != task ==> slot(#[trigger] final(jobs)@, t) == slot(old(jobs)@, t),
{
    if let Some(i) = find_slot(jobs, task) {
        let j = jobs[i];
        let ghost before = jobs@;
        jobs[i] = JobState { task: j.task, done: true, started: j.started };
        proof {
            assert(jobs@ == before.update(i as int, JobState { done: true, ..j }));
            lemma_slot_at(jobs@, i as int);
            assert forall|t: BackgroundTask| t != task implies slot(#[trigger] jobs@, t) == slot(before, t) by {
                if has_slot(before, t) {
                    let m = choose|m: int| 0 <= m < before.len() && before[m].task == t;
                    lemma_slot_at(before, m);
                    lemma_slot_at(jobs@, m);
                } else {
                    assert forall|k: int| 0 <= k < jobs@.len() implies jobs@[k].task != t by {
                        if k != i {
                            assert(jobs@[k] == before[k]);
                        }
                    }
                    lemma_slot_absent(jobs@, t);
                }
            }
        }
    }
}

/// Claims the slot of `task` for a new run started at `now`, if no slot is
/// held for it, or its last run is done and more than `delay` seconds have
/// passed since that run started. Returns whether it did.
pub fn schedule_task(jobs: &mut Vec<JobState>, task: BackgroundTask, delay: u64, now: u64) -> (r: bool)
    requires
        jobs_wf(old(jobs)@),
    ensures
        jobs_wf(final(jobs)@),
        r == may_schedule(slot(old(jobs)@, task), delay, now),
        r ==> final(jobs)@ == other_jobs(old(jobs)@, task).push(JobState { task, done: false, started: now }),
        r ==> slot(final(jobs)@, task) == Some(JobState { task, done: false, started: now }),
        !r ==> final(jobs)@ == old(jobs)@,
        forall|t: BackgroundTask| t != task ==> slot(#[trigger] final(jobs)@, t) == slot(old(jobs)@, t),
{
    let sch = match find_slot(jobs, task) {
        Some(i) => {
            let j = jobs[i];
            let since = if now >= j.started { now - j.started } else { 0 };
            since > delay && j.done
        },
        None => true,
    };
    if sch {
        remove_task(jobs, task);
        let ghost before = jobs@;
        jobs.push(JobState { task, done: false, started: now });
        proof {
            assert forall|a: int, b: int| 0 <= a < b < jobs@.len() implies jobs@[a].task != jobs@[b].task by {
                if b == before.len() {
                    assert(jobs@[a] == before[a]);
                    if before[a].task == task {
                        lemma_slot_at(before, a);
                    }
                } else {
                    assert(jobs@[a] == before[a] && jobs@[b] == before[b]);
                }
            }
            lemma_slot_at(jobs@, before.len() as int);
            assert forall|t: BackgroundTask| t != task implies slot(#[trigger] jobs@, t) == slot(before, t) by {
                if has_slot(before, t) {
                    let m = choose|m: int| 0 <= m < before.len() && before[m].task == t;
                    lemma_slot_at(before, m);
                    assert(jobs@[m] == before[m]);
                    lemma_slot_at(jobs@, m);
                } else {
                    assert forall|k: int| 0 <= k < jobs@.len() implies jobs@[k].task != t by {
                        if k < before.len() {
                            assert(jobs@[k] == before[k]);
                        }
                    }
                    lemma_slot_absent(jobs@, t);
                }
            }
        }
    }
    sch
}

/// Once a run of a job kind has been scheduled at `started`, no call
/// schedules that kind again while the run is not done; once it is marked
/// done, a call schedules it exactly when more than `delay` seconds have
/// passed since `started`.
pub proof fn lemma_schedule_dedup(jobs: Seq<JobState>, task: BackgroundTask, delay: u64, started: u64, now: u64)
    requires
        slot(jobs, task) == Some(JobState { task, done: false, started }),
    ensures
        !may_schedule(slot(jobs, task), delay, now),
        may_schedule(finished(slot(jobs, task)), delay, now) == (now >= started && now - started > delay),
{
}

} // verus!
