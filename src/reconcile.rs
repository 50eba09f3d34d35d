//! Dirty-state reconciliation: open request tabs flagged `MaybeDirty` are
//! compared, field by field, with the decoded form of their persisted file.
use vstd::prelude::*;

use std::path::PathBuf;

use crate::collections::{has_request, holds_request, Collection, CollectionRequest, RequestRef};
use crate::keys::{lemma_norm_idempotent, norm, TabKey};
use crate::persistence::request::{decode_model, decode_request, encode_model, EncodedRequest};
use crate::request::{Request, RequestModel};
use crate::state::{AppState, HttpTab, RequestDirtyState, Tab};

verus! {

/// An open request tab whose persisted form is to be read and compared.
#[derive(Debug)]
pub struct DirtyCheck {
    pub key: TabKey,
    /// The tab's revision when it was scanned.
    pub revision: u64,
    pub request: Request,
    pub path: PathBuf,
}

/// Whether tab `t` waits for a verdict.
pub open spec fn needs_check(t: Tab) -> bool {
    t is Http && t->Http_0.request_dirty_state == RequestDirtyState::MaybeDirty
}

/// Whether `r` names a request that the store holds.
pub open spec fn resolvable(cols: Map<u64, Collection>, r: Option<CollectionRequest>) -> bool {
    match r {
        Some(cr) => cols.dom().contains(cr.0.id()) && holds_request(cols[cr.0.id()].children@, cr.1),
        None => false,
    }
}

/// Tab `t` with its dirty state set to `s`, when it is a request tab.
pub open spec fn with_dirty_state(t: Tab, s: RequestDirtyState) -> Tab {
    match t {
        Tab::Http(h) => Tab::Http(HttpTab { request_dirty_state: s, ..h }),
        _ => t,
    }
}

/// The revision that follows `r`.
pub open spec fn next_revision(r: u64) -> u64 {
    if r < u64::MAX {
        (r + 1) as u64
    } else {
        0
    }
}

/// Tab `t` after an edit or save: waiting for a verdict, at a new revision.
pub open spec fn restamped(t: Tab) -> Tab {
    match t {
        Tab::Http(h) => Tab::Http(
            HttpTab { request_dirty_state: RequestDirtyState::MaybeDirty, revision: next_revision(h.revision), ..h },
        ),
        _ => t,
    }
}

/// A tab after the scan: one waiting for a verdict with nothing on disk to
/// compare against is clean at once; any other is unchanged.
pub open spec fn after_scan(cols: Map<u64, Collection>, t: Tab) -> Tab {
    if needs_check(t) && !resolvable(cols, t->Http_0.collection_ref) {
        with_dirty_state(t, RequestDirtyState::Clean)
    } else {
        t
    }
}

/// `c` is the check to run for tab `t`: its request, and the path of the
/// persisted request it names.
pub open spec fn check_of(cols: Map<u64, Collection>, t: Tab, c: DirtyCheck) -> bool {
    &&& needs_check(t)
    &&& resolvable(cols, t->Http_0.collection_ref)
    &&& c.request@ == t->Http_0.request@
    &&& c.revision == t->Http_0.revision
    &&& ({
        let cr = t->Http_0.collection_ref.unwrap();
        exists|rr: RequestRef| rr.id == cr.1 && #[trigger] has_request(cols[cr.0.id()].children@, rr) && c.path == rr.path
    })
}

/// The verdict for a tab whose in-memory request is `tab` when the file
/// decodes to `disk`: clean exactly when the two agree field by field.
pub open spec fn verdict(tab: RequestModel, disk: RequestModel) -> RequestDirtyState {
    if tab == disk {
        RequestDirtyState::Clean
    } else {
        RequestDirtyState::Dirty
    }
}

/// The outcome of one dirty check, as the tab, the revision it had at the
/// scan, and the dirty state found.
pub type Verdict = (TabKey, u64, RequestDirtyState);

/// Tab `t`, of identity `id`, after verdict `u` is applied: only a tab
/// still waiting for a verdict, and not edited or saved since the scan
/// (same revision), takes it.
pub open spec fn apply_one(t: Tab, id: u64, u: Verdict) -> Tab {
    if u.0.id() == id && needs_check(t) && t->Http_0.revision == u.1 {
        with_dirty_state(t, u.2)
    } else {
        t
    }
}

/// Tab `t`, of identity `id`, after the verdicts `us`, in order.
pub open spec fn apply_all(t: Tab, id: u64, us: Seq<Verdict>) -> Tab
    decreases us.len(),
{
    if us.len() == 0 {
        t
    } else {
        apply_one(apply_all(t, id, us.drop_last()), id, us.last())
    }
}

/// The verdict for one check against the decoded file.
pub fn dirty_verdict(tab: &Request, disk: &Request) -> (r: RequestDirtyState)
    ensures
        r == verdict(tab@, disk@),
{
    if tab.same_as(disk) {
        RequestDirtyState::Clean
    } else {
        RequestDirtyState::Dirty
    }
}

/// One verdict per check, from the persisted document read for it.
pub fn dirty_verdicts(checks: &Vec<DirtyCheck>, on_disk: &Vec<EncodedRequest>) -> (r: Vec<Verdict>)
    requires
        checks.len() == on_disk.len(),
    ensures
        r.len() == checks.len(),
        forall|i: int|
            0 <= i < r.len() ==> #[trigger] r@[i] == (checks@[i].key, checks@[i].revision, verdict(checks@[i].request@, decode_model(on_disk@[i]@))),
{
    let mut out: Vec<Verdict> = Vec::new();
    let mut i: usize = 0;
    while i < checks.len()
        invariant
            0 <= i <= checks.len(),
            checks.len() == on_disk.len(),
            out.len() == i,
            forall|j: int|
                0 <= j < i ==> #[trigger] out@[j] == (checks@[j].key, checks@[j].revision, verdict(checks@[j].request@, decode_model(on_disk@[j]@))),
        decreases checks.len() - i,
    {
        let disk = decode_request(&on_disk[i]);
        let v = dirty_verdict(&checks[i].request, &disk);
        out.push((checks[i].key, checks[i].revision, v));
        i = i + 1;
    }
    out
}

impl AppState {
    /// Sets the dirty state of tab `key` to `s`, if it is an open request
    /// tab still waiting for a verdict and still at `revision`.
    pub fn set_dirty_if_waiting(&mut self, key: TabKey, revision: u64, s: RequestDirtyState)
        requires
            old(self).wf(),
        ensures
            final(self).wf(),
            final(self).active_tab == old(self).active_tab,
            final(self).history() == old(self).history(),
            final(self).collections == old(self).collections,
            final(self).background_tasks == old(self).background_tasks,
            final(self).tabs_of().dom() == old(self).tabs_of().dom(),
            forall|id: u64| #[trigger] old(self).tabs_of().dom().contains(id) ==> final(self).tabs_of()[id]
                == apply_one(old(self).tabs_of()[id], id, (key, revision, s)),
    {
        match self.get_tab_mut(key) {
            Some(t) => match t {
                Tab::Http(h) => {
                    if h.request_dirty_state == RequestDirtyState::MaybeDirty && h.revision == revision {
                        h.request_dirty_state = s;
                    }
                },
                _ => {},
            },
            None => {},
        }
        proof {
            assert(self.tabs_of().dom() =~= old(self).tabs_of().dom());
        }
    }

    /// Scans the open request tabs waiting for a verdict. Those whose
    /// persisted request cannot be found (no reference, or a stale one) are
    /// made clean at once; for the others, one check each is returned.
    pub fn check_dirty_requests(&mut self) -> (r: Vec<DirtyCheck>)
        requires
            old(self).wf(),
        ensures
            final(self).wf(),
            final(self).active_tab == old(self).active_tab,
            final(self).history() == old(self).history(),
            final(self).collections == old(self).collections,
            final(self).background_tasks == old(self).background_tasks,
            final(self).tabs_of().dom() == old(self).tabs_of().dom(),
            forall|id: u64| #[trigger] old(self).tabs_of().dom().contains(id) ==> final(self).tabs_of()[id]
                == after_scan(old(self).collections.view(), old(self).tabs_of()[id]),
            forall|k: int|
                0 <= k < r.len() ==> old(self).tabs_of().dom().contains((#[trigger] r@[k]).key.id()) && check_of(
                    old(self).collections.view(),
                    old(self).tabs_of()[r@[k].key.id()],
                    r@[k],
                ),
            forall|id: u64|
                #[trigger] old(self).tabs_of().dom().contains(id) && needs_check(old(self).tabs_of()[id]) && resolvable(
                    old(self).collections.view(),
                    old(self).tabs_of()[id]->Http_0.collection_ref,
                ) ==> exists|k: int| 0 <= k < r.len() && (#[trigger] r@[k]).key.id() == id,
            forall|a: int, b: int| 0 <= a < b < r.len() ==> (#[trigger] r@[a]).key.id() != (#[trigger] r@[b]).key.id(),
    {
        let ghost cols = self.collections.view();
        let ghost old_tabs = self.tabs_of();
        let ids = self.tabs.keys();
        let mut out: Vec<DirtyCheck> = Vec::new();
        let mut i: usize = 0;
        while i < ids.len()
            invariant
                0 <= i <= ids.len(),
                self.wf(),
                ids@.no_duplicates(),
                ids@.to_set() == old_tabs.dom(),
                old_tabs == old(self).tabs_of(),
                cols == old(self).collections.view(),
                self.active_tab == old(self).active_tab,
                self.history() == old(self).history(),
                self.collections == old(self).collections,
                self.background_tasks == old(self).background_tasks,
                self.tabs_of().dom() == old_tabs.dom(),
                forall|id: u64| #[trigger] old_tabs.dom().contains(id) ==> self.tabs_of()[id] == (if crate::collections::listed(ids@, i as int, id) {
                    after_scan(cols, old_tabs[id])
                } else {
                    old_tabs[id]
                }),
                forall|k: int|
                    0 <= k < out.len() ==> old_tabs.dom().contains((#[trigger] out@[k]).key.id()) && check_of(
                        cols,
                        old_tabs[out@[k].key.id()],
                        out@[k],
                    ) && crate::collections::listed(ids@, i as int, out@[k].key.id()),
                forall|id: u64|
                    #[trigger] old_tabs.dom().contains(id) && crate::collections::listed(ids@, i as int, id) && needs_check(old_tabs[id]) && resolvable(
                        cols,
                        old_tabs[id]->Http_0.collection_ref,
                    ) ==> exists|k: int| 0 <= k < out.len() && (#[trigger] out@[k]).key.id() == id,
                forall|a: int, b: int| 0 <= a < b < out.len() ==> (#[trigger] out@[a]).key.id() != (#[trigger] out@[b]).key.id(),
            decreases ids.len() - i,
        {
            let id = ids[i];
            proof {
                assert(ids@[i as int] == id);
                assert(ids@.contains(id));
                assert(old_tabs.dom().contains(id));
                assert(norm(id) == id);
                assert(!crate::collections::listed(ids@, i as int, id)) by {
                    if crate::collections::listed(ids@, i as int, id) {
                        let j = choose|j: int| 0 <= j < i && #[trigger] ids@[j] == id;
                        assert(ids@[j] == ids@[i as int]);
                    }
                }
                assert forall|x: u64| crate::collections::listed(ids@, i + 1, x) == (crate::collections::listed(ids@, i as int, x) || x == id) by {
                    if crate::collections::listed(ids@, i + 1, x) {
                        let j = choose|j: int| 0 <= j < i + 1 && #[trigger] ids@[j] == x;
                        if j < i {
                            assert(crate::collections::listed(ids@, i as int, x));
                        }
                    }
                    if crate::collections::listed(ids@, i as int, x) {
                        let j = choose|j: int| 0 <= j < i && #[trigger] ids@[j] == x;
                        assert(ids@[j] == x);
                    }
                    if x == id {
                        assert(ids@[i as int] == x);
                    }
                }
            }
            let key = TabKey::from_bits(id);
            proof {
                lemma_norm_idempotent(id);
            }
            let ghost here = self.tabs_of();
            let ghost out0 = out@;
            let mut check: Option<DirtyCheck> = None;
            let mut clean = false;
            match self.get_tab(key) {
                Some(Tab::Http(h)) => {
                    if h.request_dirty_state == RequestDirtyState::MaybeDirty {
                        match h.collection_ref {
                            Some(cr) => match self.collections.get_ref(cr) {
                                Some(rr) => {
                                    check = Some(DirtyCheck { key, revision: h.revision, request: h.request.duplicate(), path: rr.path.clone() });
                                    proof {
                                        assert(has_request(cols[cr.0.id()].children@, *rr));
                                    }
                                },
                                None => {
                                    clean = true;
                                },
                            },
                            None => {
                                clean = true;
                            },
                        }
                    }
                },
                _ => {},
            }
            if clean {
                let rev = match self.get_tab(key) {
                    Some(Tab::Http(h)) => h.revision,
                    _ => 0,
                };
                self.set_dirty_if_waiting(key, rev, RequestDirtyState::Clean);
            }
            match check {
                Some(c) => {
                    let ghost before = out@;
                    out.push(c);
                    proof {
                        assert forall|a: int, b: int| 0 <= a < b < out.len() implies (#[trigger] out@[a]).key.id() != (#[trigger] out@[b]).key.id() by {
                            if b < before.len() {
                                assert(out@[a] == before[a] && out@[b] == before[b]);
                            } else {
                                assert(out@[a] == before[a]);
                                assert(crate::collections::listed(ids@, i as int, before[a].key.id()));
                            }
                        }
                    }
                },
                None => {},
            }
            proof {
                assert forall|x: u64| #[trigger] old_tabs.dom().contains(x) implies self.tabs_of()[x] == (if crate::collections::listed(ids@, i + 1, x) {
                    after_scan(cols, old_tabs[x])
                } else {
                    old_tabs[x]
                }) by {
                    if x != id {
                        assert(self.tabs_of()[x] == here[x]);
                    }
                }
                assert forall|k: int| 0 <= k < out.len() implies old_tabs.dom().contains((#[trigger] out@[k]).key.id()) && check_of(
                    cols,
                    old_tabs[out@[k].key.id()],
                    out@[k],
                ) && crate::collections::listed(ids@, i + 1, out@[k].key.id()) by {
                }
                assert forall|x: u64|
                    #[trigger] old_tabs.dom().contains(x) && crate::collections::listed(ids@, i + 1, x) && needs_check(old_tabs[x]) && resolvable(
                        cols,
                        old_tabs[x]->Http_0.collection_ref,
                    ) implies exists|k: int| 0 <= k < out.len() && (#[trigger] out@[k]).key.id() == x by {
                    if x == id {
                        assert(out@[out.len() - 1].key.id() == x);
                    } else {
                        assert(crate::collections::listed(ids@, i as int, x));
                        let k = choose|k: int| 0 <= k < out0.len() && (#[trigger] out0[k]).key.id() == x;
                        assert(out@[k] == out0[k]);
                    }
                }
            }
            i = i + 1;
        }
        proof {
            assert forall|x: u64| #[trigger] old_tabs.dom().contains(x) implies crate::collections::listed(ids@, ids.len() as int, x) by {
                assert(ids@.to_set().contains(x));
                let j = choose|j: int| 0 <= j < ids.len() && ids@[j] == x;
                assert(ids@[j] == x);
            }
        }
        out
    }

    /// Applies a batch of verdicts in order. A verdict for a tab that is
    /// closed, no longer waiting for a verdict, or edited or saved since it
    /// was scanned (another revision), is ignored.
    pub fn apply_dirty_states(&mut self, updates: Vec<Verdict>)
        requires
            old(self).wf(),
        ensures
            final(self).wf(),
            final(self).active_tab == old(self).active_tab,
            final(self).history() == old(self).history(),
            final(self).collections == old(self).collections,
            final(self).background_tasks == old(self).background_tasks,
            final(self).tabs_of().dom() == old(self).tabs_of().dom(),
            forall|id: u64| #[trigger] old(self).tabs_of().dom().contains(id) ==> final(self).tabs_of()[id]
                == apply_all(old(self).tabs_of()[id], id, updates@),
    {
        let mut i: usize = 0;
        while i < updates.len()
            invariant
                0 <= i <= updates.len(),
                self.wf(),
                self.active_tab == old(self).active_tab,
                self.history() == old(self).history(),
                self.collections == old(self).collections,
                self.background_tasks == old(self).background_tasks,
                self.tabs_of().dom() == old(self).tabs_of().dom(),
                forall|id: u64| #[trigger] old(self).tabs_of().dom().contains(id) ==> self.tabs_of()[id]
                    == apply_all(old(self).tabs_of()[id], id, updates@.take(i as int)),
            decreases updates.len() - i,
        {
            let (key, rev, s) = updates[i];
            let ghost here = self.tabs_of();
            self.set_dirty_if_waiting(key, rev, s);
            proof {
                assert forall|id: u64| #[trigger] old(self).tabs_of().dom().contains(id) implies self.tabs_of()[id]
                    == apply_all(old(self).tabs_of()[id], id, updates@.take(i + 1)) by {
                    assert(updates@.take(i + 1).drop_last() =~= updates@.take(i as int));
                    assert(updates@.take(i + 1).last() == (key, rev, s));
                }
            }
            i = i + 1;
        }
        proof {
            assert(updates@.take(updates.len() as int) =~= updates@);
        }
    }
}

/// A freshly opened, unedited tab (its request decoded from the file) is
/// clean; a tab reconciled against a file holding what was saved from it is
/// clean exactly when its request has no body, the one field the file does
/// not hold.
pub proof fn lemma_saved_request_is_clean(r: RequestModel, e: crate::persistence::request::EncodedRequestModel)
    ensures
        verdict(decode_model(e), decode_model(e)) == RequestDirtyState::Clean,
        (verdict(r, decode_model(encode_model(r))) == RequestDirtyState::Clean) == (r.body == crate::request::BodyModel::Empty),
{
    if r.body == crate::request::BodyModel::Empty {
        crate::persistence::request::lemma_encode_decode_round_trip(r);
    }
}

/// A verdict from a scan taken before an edit or save of the tab is
/// ignored: the tab keeps waiting for a verdict at its new revision.
pub proof fn lemma_stale_verdict_ignored(t: Tab, id: u64, key: TabKey, s: RequestDirtyState)
    requires
        t is Http,
    ensures
        apply_one(restamped(t), id, (key, t->Http_0.revision, s)) == restamped(t),
{
}

} // verus!
