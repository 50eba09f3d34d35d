//! The update step of the application loop for background work and sends:
//! which jobs to launch on a tick, what a job's completion message does,
//! and how a send moves a tab's response pane.
use vstd::prelude::*;

use crate::collections::{active_env_of, Collection, Environment};
use crate::keys::{slot_index, CollectionKey};
use crate::reconcile::{after_scan, check_of, needs_check, resolvable, apply_all, DirtyCheck};
use crate::request::{kv_models, Request};
use crate::executor::TaskResult;
use crate::response::{Response, ResponseResult, ResponseState};
use crate::scheduler::{
    finished, may_schedule, schedule_task, slot, task_done, BackgroundTask, JobState, CHECK_DIRTY_COOLDOWN,
};
use crate::state::{fallback, AppState, CollectionTab, HttpTab, RequestDirtyState, Tab};
use crate::ui::TabBarAction;

verus! {

/// Completion messages of background jobs.
#[derive(Debug)]
pub enum TaskMsg {
    CollectionsLoaded(Vec<Collection>),
    Completed(BackgroundTask),
    UpdateDirtyTabs(Vec<crate::reconcile::Verdict>),
}

/// Work to launch on one tick of the loop: the collections to write, and
/// the dirty checks to run. Either may be empty.
#[derive(Debug)]
pub struct BackgroundWork {
    pub save: Vec<CollectionKey>,
    pub check: Vec<DirtyCheck>,
}

/// Whether some collection has changes not yet written.
pub open spec fn any_dirty(s: &AppState) -> bool {
    exists|id: u64| #[trigger] s.collections.view().dom().contains(id) && s.collections.view()[id].dirty
}

/// Every slot but that of `task` agrees.
pub open spec fn other_slots_kept(a: Seq<JobState>, b: Seq<JobState>, task: BackgroundTask) -> bool {
    forall|t: BackgroundTask| t != task ==> #[trigger] slot(a, t) == slot(b, t)
}

/// `after` holds collection `c` under an identity that `before` lacks.
pub open spec fn newly_held(before: Map<u64, Collection>, after: Map<u64, Collection>, c: Collection) -> bool {
    exists|id: u64| #[trigger] after.dom().contains(id) && !before.dom().contains(id) && after[id] == c
}

impl CollectionTab {
    /// A tab showing collection `key`.
    pub fn new(key: CollectionKey, col: &Collection) -> (r: CollectionTab)
        ensures
            r.collection_key == key,
            r.name == col.name,
    {
        CollectionTab { collection_key: key, name: col.name.clone() }
    }
}

/// What the save step of a tick did, from state `s` at time `now`: when
/// some collection is dirty and the job may run, it claimed the slot and
/// handed out exactly the dirty collections; otherwise it handed out
/// nothing and left the slot as it was.
pub open spec fn save_outcome(s: &AppState, jobs: Seq<JobState>, r: Seq<CollectionKey>, now: u64) -> bool {
    let go = any_dirty(s) && may_schedule(slot(s.background_tasks@, BackgroundTask::SaveCollections), 0, now);
    &&& go ==> slot(jobs, BackgroundTask::SaveCollections) == Some(
        JobState { task: BackgroundTask::SaveCollections, done: false, started: now },
    )
    &&& go ==> forall|id: u64|
        (exists|i: int| 0 <= i < r.len() && #[trigger] r[i].id() == id) <==> (s.collections.view().dom().contains(id)
            && s.collections.view()[id].dirty)
    &&& !go ==> r.len() == 0 && slot(jobs, BackgroundTask::SaveCollections) == slot(
        s.background_tasks@,
        BackgroundTask::SaveCollections,
    )
}

/// What the dirty-check step of a tick did, from state `s` at time `now`,
/// leaving tabs `tabs` and job slots `jobs`: when the job may run, it
/// claimed the slot (done at once when there was nothing to check), scanned
/// the tabs and handed out one check per tab to compare; otherwise it
/// handed out nothing and changed nothing.
pub open spec fn check_outcome(s: &AppState, tabs: Map<u64, Tab>, jobs: Seq<JobState>, r: Seq<DirtyCheck>, now: u64) -> bool {
    let go = may_schedule(
        slot(s.background_tasks@, BackgroundTask::CheckDirtyRequests),
        CHECK_DIRTY_COOLDOWN,
        now,
    );
    let cols = s.collections.view();
    let old_tabs = s.tabs_of();
    &&& !go ==> r.len() == 0 && tabs == old_tabs && slot(jobs, BackgroundTask::CheckDirtyRequests) == slot(
        s.background_tasks@,
        BackgroundTask::CheckDirtyRequests,
    )
    &&& go ==> slot(jobs, BackgroundTask::CheckDirtyRequests) == Some(
        JobState { task: BackgroundTask::CheckDirtyRequests, done: r.len() == 0, started: now },
    )
    &&& go ==> forall|id: u64| #[trigger] old_tabs.dom().contains(id) ==> tabs[id] == after_scan(cols, old_tabs[id])
    &&& go ==> forall|k: int|
        0 <= k < r.len() ==> old_tabs.dom().contains((#[trigger] r[k]).key.id()) && check_of(cols, old_tabs[r[k].key.id()], r[k])
    &&& go ==> forall|id: u64|
        #[trigger] old_tabs.dom().contains(id) && needs_check(old_tabs[id]) && resolvable(
            cols,
            old_tabs[id]->Http_0.collection_ref,
        ) ==> exists|k: int| 0 <= k < r.len() && (#[trigger] r[k]).key.id() == id
}

/// Claims the save job when some collection is dirty and the job may run;
/// returns the collections to write, or nothing when it did not claim it.
pub fn save_open_collections(state: &mut AppState, now: u64) -> (r: Vec<CollectionKey>)
    requires
        old(state).wf(),
    ensures
        final(state).wf(),
        final(state).tabs_of() == old(state).tabs_of(),
        final(state).active_tab == old(state).active_tab,
        final(state).history() == old(state).history(),
        final(state).collections == old(state).collections,
        other_slots_kept(final(state).background_tasks@, old(state).background_tasks@, BackgroundTask::SaveCollections),
        save_outcome(old(state), final(state).background_tasks@, r@, now),
        r.len() == 0 ==> final(state).background_tasks@ == old(state).background_tasks@,
{
    let task = BackgroundTask::SaveCollections;
    if !state.collections.any_dirty() {
        return Vec::new();
    }
    if !schedule_task(&mut state.background_tasks, task, 0, now) {
        return Vec::new();
    }
    let r = state.collections.get_collections_for_save();
    proof {
        if r.len() == 0 {
            let id = choose|id: u64| #[trigger] old(state).collections.view().dom().contains(id) && old(state).collections.view()[id].dirty;
            assert(exists|i: int| 0 <= i < r.len() && #[trigger] r@[i].id() == id);
        }
    }
    r
}

/// Claims the dirty-check job when it may run (at most once per cooldown),
/// then scans the tabs; returns the checks to run. With nothing to check
/// the job is marked done at once.
pub fn check_dirty_requests(state: &mut AppState, now: u64) -> (r: Vec<DirtyCheck>)
    requires
        old(state).wf(),
    ensures
        final(state).wf(),
        final(state).active_tab == old(state).active_tab,
        final(state).history() == old(state).history(),
        final(state).collections == old(state).collections,
        final(state).tabs_of().dom() == old(state).tabs_of().dom(),
        other_slots_kept(final(state).background_tasks@, old(state).background_tasks@, BackgroundTask::CheckDirtyRequests),
        check_outcome(old(state), final(state).tabs_of(), final(state).background_tasks@, r@, now),
{
    let task = BackgroundTask::CheckDirtyRequests;
    if !schedule_task(&mut state.background_tasks, task, CHECK_DIRTY_COOLDOWN, now) {
        return Vec::new();
    }
    let checks = state.check_dirty_requests();
    if checks.len() == 0 {
        task_done(&mut state.background_tasks, task);
    }
    checks
}

/// One tick: the save job, then the dirty-check job.
pub fn background(state: &mut AppState, now: u64) -> (r: BackgroundWork)
    requires
        old(state).wf(),
    ensures
        final(state).wf(),
        final(state).active_tab == old(state).active_tab,
        final(state).history() == old(state).history(),
        final(state).collections == old(state).collections,
        final(state).tabs_of().dom() == old(state).tabs_of().dom(),
        save_outcome(old(state), final(state).background_tasks@, r.save@, now),
        check_outcome(old(state), final(state).tabs_of(), final(state).background_tasks@, r.check@, now),
{
    let ghost s0 = *state;
    let save = save_open_collections(state, now);
    let ghost s1 = *state;
    let check = check_dirty_requests(state, now);
    proof {
        assert(slot(s1.background_tasks@, BackgroundTask::CheckDirtyRequests) == slot(
            s0.background_tasks@,
            BackgroundTask::CheckDirtyRequests,
        ));
        assert(slot(state.background_tasks@, BackgroundTask::SaveCollections) == slot(
            s1.background_tasks@,
            BackgroundTask::SaveCollections,
        ));
    }
    BackgroundWork { save, check }
}

impl TaskMsg {
    /// Applies a job's completion message. Loaded collections are
    /// registered, and when the store then holds any collection, the last
    /// one in the arena's order (highest slot index) is opened in a tab; a completion marks its
    /// job done; a batch of verdicts marks the dirty check done and is
    /// applied to the tabs still waiting for one.
    pub fn update(self, state: &mut AppState)
        requires
            old(state).wf(),
            match self {
                TaskMsg::CollectionsLoaded(cols) => {
                    &&& old(state).collections.view().dom().len() + cols.len() + 1 < u32::MAX
                    &&& old(state).tabs_of().dom().len() + 1 < u32::MAX
                    &&& forall|i: int| 0 <= i < cols.len() ==> (#[trigger] cols@[i]).wf()
                },
                _ => true,
            },
        ensures
            final(state).wf(),
            match self {
                TaskMsg::CollectionsLoaded(cols) => {
                    let before = old(state).collections.view();
                    let after = final(state).collections.view();
                    &&& after.dom().len() == before.dom().len() + cols.len()
                    &&& forall|id: u64| #[trigger] before.dom().contains(id) ==> after.dom().contains(id) && after[id] == before[id]
                    &&& forall|i: int| 0 <= i < cols.len() ==> newly_held(before, after, #[trigger] cols@[i])
                    &&& (exists|id: u64| #[trigger] after.dom().contains(id)) ==> ({
                        let k = final(state).active_tab.unwrap();
                        let t = final(state).tabs_of()[k.id()];
                        &&& final(state).active_tab.is_some()
                        &&& !old(state).tabs_of().dom().contains(k.id())
                        &&& final(state).tabs_of() == old(state).tabs_of().insert(k.id(), t)
                        &&& t is Collection
                        &&& after.dom().contains(t->Collection_0.collection_key.id())
                        &&& t->Collection_0.name == after[t->Collection_0.collection_key.id()].name
                        &&& forall|id: u64| #[trigger] after.dom().contains(id) ==> slot_index(id) <= slot_index(
                            t->Collection_0.collection_key.id(),
                        )
                    })
                    &&& !(exists|id: u64| #[trigger] after.dom().contains(id)) ==> final(state).tabs_of() == old(state).tabs_of()
                        && final(state).active_tab == old(state).active_tab
                    &&& slot(final(state).background_tasks@, BackgroundTask::SaveCollections) == finished(
                        slot(old(state).background_tasks@, BackgroundTask::SaveCollections),
                    )
                },
                TaskMsg::Completed(task) => {
                    &&& final(state).tabs_of() == old(state).tabs_of()
                    &&& final(state).active_tab == old(state).active_tab
                    &&& final(state).history() == old(state).history()
                    &&& final(state).collections == old(state).collections
                    &&& slot(final(state).background_tasks@, task) == finished(slot(old(state).background_tasks@, task))
                    &&& other_slots_kept(final(state).background_tasks@, old(state).background_tasks@, task)
                },
                TaskMsg::UpdateDirtyTabs(status) => {
                    &&& final(state).collections == old(state).collections
                    &&& final(state).active_tab == old(state).active_tab
                    &&& final(state).history() == old(state).history()
                    &&& final(state).tabs_of().dom() == old(state).tabs_of().dom()
                    &&& forall|id: u64| #[trigger] old(state).tabs_of().dom().contains(id) ==> final(state).tabs_of()[id]
                        == apply_all(old(state).tabs_of()[id], id, status@)
                    &&& slot(final(state).background_tasks@, BackgroundTask::CheckDirtyRequests) == finished(
                        slot(old(state).background_tasks@, BackgroundTask::CheckDirtyRequests),
                    )
                    &&& other_slots_kept(
                        final(state).background_tasks@,
                        old(state).background_tasks@,
                        BackgroundTask::CheckDirtyRequests,
                    )
                },
            },
    {
        match self {
            TaskMsg::CollectionsLoaded(cols) => {
                let ghost gcols = cols@;
                let keys = state.collections.insert_all(cols);
                proof {
                    assert forall|i: int| 0 <= i < gcols.len() implies newly_held(
                        old(state).collections.view(),
                        state.collections.view(),
                        #[trigger] gcols[i],
                    ) by {
                        assert(state.collections.view().dom().contains(keys@[i].id()));
                    }
                }
                let all = state.collections.keys();
                if all.len() > 0 {
                    let key = all[all.len() - 1];
                    proof {
                        assert forall|id: u64| #[trigger] state.collections.view().dom().contains(id) implies slot_index(id)
                            <= slot_index(key.id()) by {
                            let i = choose|i: int| 0 <= i < all.len() && (#[trigger] all@[i]).id() == id;
                            if i < all.len() - 1 {
                                assert(slot_index(all@[i].id()) < slot_index(all@[all.len() - 1].id()));
                            }
                        }
                    }
                    match state.collections.get(key) {
                        Some(col) => {
                            let tab = CollectionTab::new(key, col);
                            let _ = state.open_tab(Tab::Collection(tab));
                        },
                        None => {
                            proof {
                                assert(false);
                            }
                        },
                    }
                } else {
                    proof {
                        assert forall|id: u64| !#[trigger] state.collections.view().dom().contains(id) by {
                            if state.collections.view().dom().contains(id) {
                                let i = choose|i: int| 0 <= i < all.len() && (#[trigger] all@[i]).id() == id;
                            }
                        }
                    }
                }
                task_done(&mut state.background_tasks, BackgroundTask::SaveCollections);
            },
            TaskMsg::Completed(task) => {
                task_done(&mut state.background_tasks, task);
            },
            TaskMsg::UpdateDirtyTabs(status) => {
                task_done(&mut state.background_tasks, BackgroundTask::CheckDirtyRequests);
                state.apply_dirty_states(status);
            },
        }
    }
}

/// The result message for a send whose run settled to `outcome`.
pub open spec fn result_of(outcome: TaskResult<Result<Response, String>>) -> ResponseResult {
    match outcome {
        TaskResult::Completed(Ok(res)) => ResponseResult::Completed(res),
        TaskResult::Completed(Err(e)) => ResponseResult::Error(e),
        TaskResult::Cancelled => ResponseResult::Cancelled,
    }
}

/// The result message of a send, from how its cancellable run settled.
pub fn response_result(outcome: TaskResult<Result<Response, String>>) -> (r: ResponseResult)
    ensures
        r == result_of(outcome),
{
    match outcome {
        TaskResult::Completed(Ok(res)) => ResponseResult::Completed(res),
        TaskResult::Completed(Err(e)) => ResponseResult::Error(e),
        TaskResult::Cancelled => ResponseResult::Cancelled,
    }
}

/// A send reports exactly one result: when the cancellation signal is
/// observed before the work completes, it reports `Cancelled` whatever the
/// work later yields; when the work completes first, it reports the work's
/// result and a later cancellation changes nothing.
pub proof fn lemma_send_reports_once(value: Result<Response, String>)
    ensures
        result_of(
            crate::executor::settle(
                crate::executor::settle(None, TaskResult::Cancelled),
                TaskResult::Completed(value),
            ).unwrap(),
        ) is Cancelled,
        result_of(
            crate::executor::settle(
                crate::executor::settle(None, TaskResult::Completed(value)),
                TaskResult::Cancelled,
            ).unwrap(),
        ) == result_of(TaskResult::Completed(value)),
        !(result_of(TaskResult::Completed(value)) is Cancelled),
{
}

/// The revision that follows `r`.
fn next_revision(r: u64) -> (n: u64)
    ensures
        n == crate::reconcile::next_revision(r),
{
    if r < u64::MAX {
        r + 1
    } else {
        0
    }
}

/// What a send needs: the request, and the environment to resolve it in.
#[derive(Debug)]
pub struct SendPlan {
    pub request: Request,
    pub env: Option<Environment>,
}

/// Tab `t` as a request tab.
pub open spec fn http_of(t: Tab) -> HttpTab {
    t->Http_0
}

/// The tab fields that a send leaves alone agree.
pub open spec fn same_edit(a: HttpTab, b: HttpTab) -> bool {
    &&& a.name == b.name
    &&& a.request == b.request
    &&& a.collection_ref == b.collection_ref
    &&& a.request_dirty_state == b.request_dirty_state
    &&& a.revision == b.revision
    &&& a.response.active_tab == b.response.active_tab
}

impl AppState {
    /// Starts a send from request tab `key`: the tab's earlier sends are
    /// cancelled, its pane enters `Executing`, and `handle` becomes its one
    /// live cancellation handle. Returns the request to send with the
    /// active environment of the collection the tab's request belongs to,
    /// or `None` when `key` is not an open request tab.
    pub fn begin_send(&mut self, key: crate::keys::TabKey, handle: tokio::sync::oneshot::Sender<()>) -> (r: Option<SendPlan>)
        requires
            old(self).wf(),
        ensures
            final(self).wf(),
            final(self).active_tab == old(self).active_tab,
            final(self).history() == old(self).history(),
            final(self).collections == old(self).collections,
            final(self).background_tasks == old(self).background_tasks,
            final(self).tabs_of().dom() == old(self).tabs_of().dom(),
            forall|id: u64| #[trigger] old(self).tabs_of().dom().contains(id) && id != key.id() ==> final(self).tabs_of()[id]
                == old(self).tabs_of()[id],
            r.is_some() == (old(self).tabs_of().dom().contains(key.id()) && old(self).tabs_of()[key.id()] is Http),
            r.is_none() ==> final(self).tabs_of() == old(self).tabs_of(),
            r.is_some() ==> ({
                let o = http_of(old(self).tabs_of()[key.id()]);
                let t = final(self).tabs_of()[key.id()];
                let env = active_env_of(old(self).collections.view(), o.collection_ref);
                let plan = r.unwrap();
                &&& t is Http
                &&& same_edit(http_of(t), o)
                &&& http_of(t).response.state is Executing
                &&& http_of(t).tasks@.len() == 1
                &&& plan.request@ == o.request@
                &&& plan.env.is_some() == env.is_some()
                &&& plan.env.is_some() ==> plan.env.unwrap().name == env.unwrap().name && kv_models(
                    plan.env.unwrap().variables@,
                ) == kv_models(env.unwrap().variables@)
            }),
    {
        let cref = match self.get_tab(key) {
            Some(Tab::Http(h)) => h.collection_ref,
            _ => None,
        };
        let env = match cref {
            Some(cr) => match self.collections.get_active_env(cr.0) {
                Some(e) => Some(e.duplicate()),
                None => None,
            },
            None => None,
        };
        let r = match self.get_tab_mut(key) {
            Some(t) => match t {
                Tab::Http(h) => {
                    h.cancel_tasks();
                    h.response.state = ResponseState::Executing;
                    h.add_task(handle);
                    Some(SendPlan { request: h.request.duplicate(), env })
                },
                _ => None,
            },
            None => None,
        };
        proof {
            assert(self.tabs_of().dom() =~= old(self).tabs_of().dom());
        }
        r
    }

    /// Applies the result message of a send from tab `key`; `content` is
    /// the text shown for a completed response. A result for a tab that is
    /// no longer open, or is not a request tab, is ignored.
    pub fn apply_response(&mut self, key: crate::keys::TabKey, result: ResponseResult, content: String)
        requires
            old(self).wf(),
        ensures
            final(self).wf(),
            final(self).active_tab == old(self).active_tab,
            final(self).history() == old(self).history(),
            final(self).collections == old(self).collections,
            final(self).background_tasks == old(self).background_tasks,
            final(self).tabs_of().dom() == old(self).tabs_of().dom(),
            forall|id: u64| #[trigger] old(self).tabs_of().dom().contains(id) && id != key.id() ==> final(self).tabs_of()[id]
                == old(self).tabs_of()[id],
            !(old(self).tabs_of().dom().contains(key.id()) && old(self).tabs_of()[key.id()] is Http) ==> final(self).tabs_of()
                == old(self).tabs_of(),
            old(self).tabs_of().dom().contains(key.id()) && old(self).tabs_of()[key.id()] is Http ==> ({
                let o = http_of(old(self).tabs_of()[key.id()]);
                let t = final(self).tabs_of()[key.id()];
                &&& t is Http
                &&& same_edit(http_of(t), o)
                &&& http_of(t).tasks == o.tasks
                &&& match result {
                    ResponseResult::Completed(res) => http_of(t).response.state == ResponseState::Completed(
                        crate::response::CompletedResponse { result: res, content },
                    ),
                    ResponseResult::Error(e) => http_of(t).response.state == ResponseState::Failed(e),
                    ResponseResult::Cancelled => http_of(t).response.state is Idle,
                }
            }),
    {
        match self.get_tab_mut(key) {
            Some(t) => match t {
                Tab::Http(h) => {
                    h.response.apply_result(result, content);
                },
                _ => {},
            },
            None => {},
        }
        proof {
            assert(self.tabs_of().dom() =~= old(self).tabs_of().dom());
        }
    }

    /// Replaces the request edited in tab `key`: in-flight sends are
    /// cancelled first and the pane returns to idle; the tab then waits for
    /// a dirty verdict. Anything but an open request tab is left as is.
    pub fn edit_request(&mut self, key: crate::keys::TabKey, request: Request)
        requires
            old(self).wf(),
        ensures
            final(self).wf(),
            final(self).active_tab == old(self).active_tab,
            final(self).history() == old(self).history(),
            final(self).collections == old(self).collections,
            final(self).background_tasks == old(self).background_tasks,
            final(self).tabs_of().dom() == old(self).tabs_of().dom(),
            forall|id: u64| #[trigger] old(self).tabs_of().dom().contains(id) && id != key.id() ==> final(self).tabs_of()[id]
                == old(self).tabs_of()[id],
            !(old(self).tabs_of().dom().contains(key.id()) && old(self).tabs_of()[key.id()] is Http) ==> final(self).tabs_of()
                == old(self).tabs_of(),
            old(self).tabs_of().dom().contains(key.id()) && old(self).tabs_of()[key.id()] is Http ==> ({
                let o = http_of(old(self).tabs_of()[key.id()]);
                let t = final(self).tabs_of()[key.id()];
                &&& t is Http
                &&& http_of(t).request == request
                &&& http_of(t).request_dirty_state == RequestDirtyState::MaybeDirty
                &&& http_of(t).revision == crate::reconcile::next_revision(o.revision)
                &&& http_of(t).response.state is Idle
                &&& http_of(t).tasks@.len() == 0
                &&& http_of(t).name == o.name
                &&& http_of(t).collection_ref == o.collection_ref
            }),
    {
        match self.get_tab_mut(key) {
            Some(t) => match t {
                Tab::Http(h) => {
                    h.cancel_tasks();
                    h.response.state = ResponseState::Idle;
                    h.request = request;
                    h.request_dirty_state = RequestDirtyState::MaybeDirty;
                    h.revision = next_revision(h.revision);
                },
                _ => {},
            },
            None => {},
        }
        proof {
            assert(self.tabs_of().dom() =~= old(self).tabs_of().dom());
        }
    }

    /// Links request tab `key` to the persisted request `req`, once its
    /// request has been filed into a collection. Anything but an open
    /// request tab is left as is.
    pub fn set_collection_ref(&mut self, key: crate::keys::TabKey, req: crate::collections::CollectionRequest)
        requires
            old(self).wf(),
        ensures
            final(self).wf(),
            final(self).active_tab == old(self).active_tab,
            final(self).history() == old(self).history(),
            final(self).collections == old(self).collections,
            final(self).background_tasks == old(self).background_tasks,
            final(self).tabs_of().dom() == old(self).tabs_of().dom(),
            forall|id: u64| #[trigger] old(self).tabs_of().dom().contains(id) ==> final(self).tabs_of()[id] == (if id
                == key.id() && old(self).tabs_of()[id] is Http {
                Tab::Http(HttpTab { collection_ref: Some(req), ..http_of(old(self).tabs_of()[id]) })
            } else {
                old(self).tabs_of()[id]
            }),
    {
        match self.get_tab_mut(key) {
            Some(t) => match t {
                Tab::Http(h) => {
                    h.collection_ref = Some(req);
                },
                _ => {},
            },
            None => {},
        }
        proof {
            assert(self.tabs_of().dom() =~= old(self).tabs_of().dom());
        }
    }

    /// Records that the request of tab `key` was written to its file: the
    /// tab waits for a verdict, which the next dirty check gives against
    /// the file as written; verdicts from earlier scans no longer apply.
    pub fn request_saved(&mut self, key: crate::keys::TabKey)
        requires
            old(self).wf(),
        ensures
            final(self).wf(),
            final(self).active_tab == old(self).active_tab,
            final(self).history() == old(self).history(),
            final(self).collections == old(self).collections,
            final(self).background_tasks == old(self).background_tasks,
            final(self).tabs_of().dom() == old(self).tabs_of().dom(),
            forall|id: u64| #[trigger] old(self).tabs_of().dom().contains(id) ==> final(self).tabs_of()[id] == (if id
                == key.id() {
                crate::reconcile::restamped(old(self).tabs_of()[id])
            } else {
                old(self).tabs_of()[id]
            }),
    {
        match self.get_tab_mut(key) {
            Some(t) => match t {
                Tab::Http(h) => {
                    h.request_dirty_state = RequestDirtyState::MaybeDirty;
                    h.revision = next_revision(h.revision);
                },
                _ => {},
            },
            None => {},
        }
        proof {
            assert(self.tabs_of().dom() =~= old(self).tabs_of().dom());
        }
    }
}

/// Removing a collection leaves no way to reach it: every reference into
/// it, from any open tab, resolves to nothing, so lookups fail softly and a
/// tab waiting for a dirty verdict through it is made clean.
pub proof fn lemma_removed_collection_dangles(
    before: Map<u64, Collection>,
    key: CollectionKey,
    rid: crate::collections::RequestId,
    t: Tab,
)
    requires
        t is Http && t->Http_0.collection_ref == Some(crate::collections::CollectionRequest(key, rid)),
        needs_check(t),
    ensures
        !before.remove(key.id()).dom().contains(key.id()),
        !resolvable(before.remove(key.id()), Some(crate::collections::CollectionRequest(key, rid))),
        after_scan(before.remove(key.id()), t) == crate::reconcile::with_dirty_state(t, RequestDirtyState::Clean),
{
}

/// Applies an action of the tab bar: switching to a tab, opening
/// `new_tab` (used by this action only), or closing a tab.
pub fn tab_bar_update(state: &mut AppState, action: TabBarAction<crate::keys::TabKey>, new_tab: Tab)
    requires
        old(state).wf(),
        action is NewTab ==> old(state).tabs_of().dom().len() + 1 < u32::MAX,
    ensures
        final(state).wf(),
        final(state).collections == old(state).collections,
        final(state).background_tasks == old(state).background_tasks,
        match action {
            TabBarAction::ChangeTab(k) => {
                &&& final(state).tabs_of() == old(state).tabs_of()
                &&& old(state).tabs_of().dom().contains(k.id()) ==> final(state).active_tab == Some(k)
                &&& !old(state).tabs_of().dom().contains(k.id()) ==> final(state).active_tab == old(state).active_tab
            },
            TabBarAction::NewTab => exists|k: crate::keys::TabKey|
                !old(state).tabs_of().dom().contains(k.id()) && final(state).tabs_of() == old(state).tabs_of().insert(
                    k.id(),
                    new_tab,
                ) && final(state).active_tab == Some(k),
            TabBarAction::CloseTab(k) => {
                &&& old(state).tabs_of().dom().contains(k.id()) ==> final(state).tabs_of() == old(state).tabs_of().remove(k.id())
                &&& !old(state).tabs_of().dom().contains(k.id()) ==> final(state).tabs_of() == old(state).tabs_of()
                    && final(state).active_tab == old(state).active_tab
                &&& old(state).tabs_of().dom().contains(k.id()) && old(state).active_id() == Some(k.id())
                    ==> final(state).active_id() == fallback(old(state).history(), final(state).tabs_of().dom()).1
                &&& old(state).active_id() != Some(k.id()) ==> final(state).active_tab == old(state).active_tab
            },
        },
{
    match action {
        TabBarAction::ChangeTab(k) => state.switch_tab(k),
        TabBarAction::NewTab => state.open_new_tab(new_tab),
        TabBarAction::CloseTab(k) => state.close_tab(k),
    }
}

} // verus!
