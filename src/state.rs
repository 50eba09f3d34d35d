//! The tab registry: an arena of open tabs keyed by handles, the active tab,
//! and a most-recently-used history of tab activations used to pick a
//! fallback tab when the active one closes.
use vstd::prelude::*;

use crate::collections::{CollectionRequest, Collections};
use crate::executor::signal_cancel;
use crate::keys::{lemma_norm_idempotent, norm, slot_index, CollectionKey, TabKey};
use crate::request::Request;
use crate::response::{ResponsePane, ResponseState};
use crate::scheduler::JobState;
use slotmap::Key;

verus! {

/// Which side of the split a pane is on.
#[derive(Debug, Clone, Copy, PartialEq, Eq, Structural, Hash)]
pub enum SplitState {
    /// Left or top.
    First,
    /// Right or bottom.
    Second,
}

/// Whether an open request may differ from its persisted form.
#[derive(Debug, Clone, Copy, PartialEq, Eq, Structural)]
pub enum RequestDirtyState {
    Clean,
    MaybeDirty,
    Dirty,
}

/// A request editor tab.
#[derive(Debug)]
pub struct HttpTab {
    pub name: String,
    pub request: Request,
    pub response: ResponsePane,
    pub collection_ref: Option<CollectionRequest>,
    pub request_dirty_state: RequestDirtyState,
    /// Bumped by each edit or save, so that a verdict from a scan taken
    /// before it is told apart.
    pub revision: u64,
    pub tasks: Vec<tokio::sync::oneshot::Sender<()>>,
}

/// A tab showing one collection.
#[derive(Debug, Clone)]
pub struct CollectionTab {
    pub collection_key: CollectionKey,
    pub name: String,
}

/// The cookie viewer tab.
#[derive(Debug, Clone)]
pub struct CookieTab {
    pub name: String,
}

#[derive(Debug)]
pub enum Tab {
    Http(HttpTab),
    Collection(CollectionTab),
    Cookie(CookieTab),
}

impl HttpTab {
    pub open spec fn live_tasks(&self) -> nat {
        self.tasks@.len()
    }

    /// A clean tab for `request`, with an idle response pane.
    pub fn new(name: String, request: Request, collection_ref: Option<CollectionRequest>) -> (r: HttpTab)
        ensures
            r.name == name,
            r.request == request,
            r.collection_ref == collection_ref,
            r.request_dirty_state == RequestDirtyState::Clean,
            r.revision == 0,
            r.response.state is Idle,
            r.live_tasks() == 0,
    {
        HttpTab {
            name,
            request,
            response: ResponsePane::new(),
            collection_ref,
            request_dirty_state: RequestDirtyState::Clean,
            revision: 0,
            tasks: Vec::new(),
        }
    }

    pub fn request(&self) -> (r: &Request)
        ensures
            *r == self.request,
    {
        &self.request
    }

    /// Keeps the cancellation handle of a send started from this tab.
    pub fn add_task(&mut self, handle: tokio::sync::oneshot::Sender<()>)
        ensures
            final(self).live_tasks() == old(self).live_tasks() + 1,
            final(self).name == old(self).name,
            final(self).request == old(self).request,
            final(self).response == old(self).response,
            final(self).collection_ref == old(self).collection_ref,
            final(self).request_dirty_state == old(self).request_dirty_state,
            final(self).revision == old(self).revision,
    {
        self.tasks.push(handle);
    }

    /// Signals cancellation to every send started from this tab and drops
    /// their handles.
    pub fn cancel_tasks(&mut self)
        ensures
            final(self).live_tasks() == 0,
            final(self).name == old(self).name,
            final(self).request == old(self).request,
            final(self).response == old(self).response,
            final(self).collection_ref == old(self).collection_ref,
            final(self).request_dirty_state == old(self).request_dirty_state,
            final(self).revision == old(self).revision,
    {
        while self.tasks.len() > 0
            invariant
                self.name == old(self).name,
                self.request == old(self).request,
                self.response == old(self).response,
                self.collection_ref == old(self).collection_ref,
                self.request_dirty_state == old(self).request_dirty_state,
                self.revision == old(self).revision,
            decreases self.tasks.len(),
        {
            let handle = self.tasks.pop().unwrap();
            signal_cancel(handle);
        }
    }
}

impl CookieTab {
    pub fn new() -> (r: Self)
        ensures
            r.name@ == "Cookies"@,
    {
        CookieTab { name: String::from_str("Cookies") }
    }
}

/// indexmap's `IndexSet`, an insertion-ordered set; its entries are named
/// by `history_items`.
#[verifier::external_type_specification]
#[verifier::external_body]
#[verifier::reject_recursive_types(T)]
#[verifier::reject_recursive_types(S)]
pub struct ExIndexSet<T, S>(indexmap::IndexSet<T, S>);

/// The entries of an insertion-ordered set of tab identities, oldest first.
pub uninterp spec fn history_items(h: indexmap::IndexSet<u64>) -> Seq<u64>;

/// `s` without `x`.
pub open spec fn without(s: Seq<u64>, x: u64) -> Seq<u64> {
    s.filter(|y: u64| y != x)
}

/// Relies on `IndexSet::new`: an empty set.
#[verifier::external_body]
fn history_new() -> (r: indexmap::IndexSet<u64>)
    ensures
        history_items(r).len() == 0,
{
    indexmap::IndexSet::new()
}

/// Relies on `IndexSet::insert`: appends `x` when absent, else leaves the
/// set and its order as they are.
#[verifier::external_body]
fn history_insert(h: &mut indexmap::IndexSet<u64>, x: u64) -> (r: bool)
    ensures
        r == !history_items(*old(h)).contains(x),
        history_items(*final(h)) == if r {
            history_items(*old(h)).push(x)
        } else {
            history_items(*old(h))
        },
{
    h.insert(x)
}

/// Relies on `IndexSet::shift_remove`: removes `x`, keeping the order of
/// the remaining entries.
#[verifier::external_body]
fn history_shift_remove(h: &mut indexmap::IndexSet<u64>, x: u64) -> (r: bool)
    ensures
        r == history_items(*old(h)).contains(x),
        history_items(*final(h)) == without(history_items(*old(h)), x),
{
    h.shift_remove(&x)
}

/// Relies on `IndexSet::pop`: removes and returns the newest entry.
#[verifier::external_body]
fn history_pop(h: &mut indexmap::IndexSet<u64>) -> (r: Option<u64>)
    ensures
        history_items(*old(h)).len() == 0 ==> r.is_none() && history_items(*final(h)) == history_items(*old(h)),
        history_items(*old(h)).len() > 0 ==> r == Some(history_items(*old(h)).last()) && history_items(*final(h))
            == history_items(*old(h)).drop_last(),
{
    h.pop()
}

/// The arena of open tabs: slotmap's `SlotMap`, whose contents are named by
/// `tab_slots`.
#[verifier::external_body]
#[derive(Debug)]
pub struct TabArena {
    slots: slotmap::SlotMap<slotmap::DefaultKey, Tab>,
}

/// The open tabs, by arena identity.
pub uninterp spec fn tab_slots(a: TabArena) -> Map<u64, Tab>;

pub open spec fn lookup<V>(m: Map<u64, V>, id: u64) -> Option<V> {
    if m.dom().contains(id) {
        Some(m[id])
    } else {
        None
    }
}

impl TabArena {
    /// Relies on `SlotMap::new`: an empty arena.
    #[verifier::external_body]
    fn new() -> (r: TabArena)
        ensures
            tab_slots(r).dom().is_empty(),
    {
        TabArena { slots: slotmap::SlotMap::new() }
    }

    /// Relies on `SlotMap::insert`, which panics only when no slot is free
    /// and `u32::MAX` slots exist: the key of a slot that was free, in its
    /// 64-bit form (`KeyData::as_ffi`), whose version is odd.
    #[verifier::external_body]
    fn insert(&mut self, tab: Tab) -> (r: u64)
        requires
            tab_slots(*old(self)).dom().len() + 1 < u32::MAX,
        ensures
            norm(r) == r,
            !tab_slots(*old(self)).dom().contains(r),
            tab_slots(*final(self)) == tab_slots(*old(self)).insert(r, tab),
    {
        self.slots.insert(tab).data().as_ffi()
    }

    /// Relies on `SlotMap::remove` with the key rebuilt by
    /// `KeyData::from_ffi`, which gives the key whose 64-bit form is `norm(id)`.
    #[verifier::external_body]
    fn remove(&mut self, id: u64) -> (r: Option<Tab>)
        ensures
            r == lookup(tab_slots(*old(self)), norm(id)),
            tab_slots(*final(self)) == tab_slots(*old(self)).remove(norm(id)),
    {
        self.slots.remove(slotmap::KeyData::from_ffi(id).into())
    }

    /// Relies on `SlotMap::contains_key`, key rebuilt as in `remove`.
    #[verifier::external_body]
    fn contains_key(&self, id: u64) -> (r: bool)
        ensures
            r == tab_slots(*self).dom().contains(norm(id)),
    {
        self.slots.contains_key(slotmap::KeyData::from_ffi(id).into())
    }

    /// Relies on `SlotMap::get`, key rebuilt as in `remove`.
    #[verifier::external_body]
    fn get(&self, id: u64) -> (r: Option<&Tab>)
        ensures
            r.is_some() == tab_slots(*self).dom().contains(norm(id)),
            r.is_some() ==> *r.unwrap() == tab_slots(*self)[norm(id)],
    {
        self.slots.get(slotmap::KeyData::from_ffi(id).into())
    }

    /// Relies on `SlotMap::get_mut`, key rebuilt as in `remove`.
    #[verifier::external_body]
    fn get_mut(&mut self, id: u64) -> (r: Option<&mut Tab>)
        ensures
            r.is_some() == tab_slots(*old(self)).dom().contains(norm(id)),
            r.is_none() ==> tab_slots(*final(self)) == tab_slots(*old(self)),
            r.is_some() ==> *r.unwrap() == tab_slots(*old(self))[norm(id)] && tab_slots(*final(self))
                == tab_slots(*old(self)).insert(norm(id), *final(r.unwrap())),
    {
        self.slots.get_mut(slotmap::KeyData::from_ffi(id).into())
    }

    /// Relies on `SlotMap::keys`: each live key once, in its 64-bit form, walking
    /// the slots by increasing index.
    #[verifier::external_body]
    pub(crate) fn keys(&self) -> (r: Vec<u64>)
        ensures
            r@.no_duplicates(),
            forall|i: int, j: int| 0 <= i < j < r.len() ==> slot_index(r@[i]) < slot_index(r@[j]),
            r@.to_set() == tab_slots(*self).dom(),
    {
        self.slots.keys().map(|k| k.data().as_ffi()).collect()
    }
}

proof fn lemma_without(s: Seq<u64>, x: u64)
    ensures
        !without(s, x).contains(x),
        forall|y: u64| y != x ==> (without(s, x).contains(y) == s.contains(y)),
        s.no_duplicates() ==> without(s, x).no_duplicates(),
        !s.contains(x) ==> without(s, x) == s,
    decreases s.len(),
{
    reveal(Seq::filter);
    if s.len() > 0 {
        let d = s.drop_last();
        lemma_without(d, x);
        assert(s == d.push(s.last()));
        assert forall|y: u64| #[trigger] s.contains(y) <==> (d.contains(y) || y == s.last()) by {
            if s.contains(y) {
                let i = choose|i: int| 0 <= i < s.len() && s[i] == y;
                if i < s.len() - 1 {
                    assert(d[i] == y);
                }
            }
            if d.contains(y) {
                let i = choose|i: int| 0 <= i < d.len() && d[i] == y;
                assert(s[i] == y);
            }
        }
        let w = without(d, x);
        if s.last() != x {
            assert(without(s, x) == w.push(s.last()));
            assert forall|y: u64| #[trigger] w.push(s.last()).contains(y) <==> (w.contains(y) || y == s.last()) by {
                if w.push(s.last()).contains(y) {
                    let i = choose|i: int| 0 <= i < w.len() + 1 && w.push(s.last())[i] == y;
                    if i < w.len() {
                        assert(w[i] == y);
                    }
                }
                if w.contains(y) {
                    let i = choose|i: int| 0 <= i < w.len() && w[i] == y;
                    assert(w.push(s.last())[i] == y);
                }
                assert(w.push(s.last())[w.len() as int] == s.last());
            }
            if s.no_duplicates() {
                assert(d.no_duplicates()) by {
                    assert forall|i: int, j: int| 0 <= i < d.len() && 0 <= j < d.len() && i != j implies d[i] != d[j] by {
                        assert(s[i] == d[i] && s[j] == d[j]);
                    }
                }
                assert(!d.contains(s.last())) by {
                    if d.contains(s.last()) {
                        let i = choose|i: int| 0 <= i < d.len() && d[i] == s.last();
                        assert(s[i] == s[s.len() - 1]);
                    }
                }
                assert(!w.contains(s.last()));
                assert forall|i: int, j: int| 0 <= i < w.len() + 1 && 0 <= j < w.len() + 1 && i != j implies w.push(s.last())[i] != w.push(s.last())[j] by {
                    if i < w.len() && j < w.len() {
                    } else if i < w.len() {
                        assert(w.contains(w[i]));
                    } else {
                        assert(w.contains(w[j]));
                    }
                }
            }
            if !s.contains(x) {
                assert(!d.contains(x));
            }
        } else {
            assert(without(s, x) == w);
            assert(s.contains(x)) by {
                assert(s[s.len() - 1] == x);
            }
            if s.no_duplicates() {
                assert(d.no_duplicates()) by {
                    assert forall|i: int, j: int| 0 <= i < d.len() && 0 <= j < d.len() && i != j implies d[i] != d[j] by {
                        assert(s[i] == d[i] && s[j] == d[j]);
                    }
                }
            }
        }
    }
}

/// The history left, and the tab made active, after the active tab closed:
/// newest entries are discarded until one names a tab that is still open.
pub open spec fn fallback(h: Seq<u64>, open: Set<u64>) -> (Seq<u64>, Option<u64>)
    decreases h.len(),
{
    if h.len() == 0 {
        (h, None)
    } else if open.contains(h.last()) {
        (h, Some(h.last()))
    } else {
        fallback(h.drop_last(), open)
    }
}

/// Whether an open tab edits the persisted request `req`.
pub open spec fn refers_to(t: Tab, req: CollectionRequest) -> bool {
    match t {
        Tab::Http(h) => h.collection_ref == Some(req),
        _ => false,
    }
}

/// `new` is tab `old` after its sends were cancelled and its response
/// pane returned to idle.
pub open spec fn cancelled_from(new: Tab, old: Tab) -> bool {
    match old {
        Tab::Http(o) => match new {
            Tab::Http(n) => n.tasks@.len() == 0 && n.response.state is Idle && n.response.active_tab
                == o.response.active_tab && n.name == o.name && n.request == o.request && n.collection_ref
                == o.collection_ref && n.request_dirty_state == o.request_dirty_state && n.revision == o.revision,
            _ => false,
        },
        _ => new == old,
    }
}

/// The application state: open tabs, the active tab, the activation
/// history, and the background job slots.
#[derive(Debug)]
pub struct AppState {
    pub active_tab: Option<TabKey>,
    pub tab_history: indexmap::IndexSet<u64>,
    pub tabs: TabArena,
    pub collections: Collections,
    pub background_tasks: Vec<JobState>,
}

impl AppState {
    pub open spec fn tabs_of(&self) -> Map<u64, Tab> {
        tab_slots(self.tabs)
    }

    pub open spec fn history(&self) -> Seq<u64> {
        history_items(self.tab_history)
    }

    pub open spec fn active_id(&self) -> Option<u64> {
        match self.active_tab {
            Some(k) => Some(k.id()),
            None => None,
        }
    }

    /// The history has no duplicates and holds every open tab; the active
    /// tab is open; identities are in the arena's form; at most one job slot
    /// per kind.
    pub open spec fn wf(&self) -> bool {
        &&& self.history().no_duplicates()
        &&& forall|id: u64| #[trigger] self.tabs_of().dom().contains(id) ==> self.history().contains(id)
        &&& forall|id: u64| #[trigger] self.tabs_of().dom().contains(id) ==> norm(id) == id
        &&& forall|i: int| 0 <= i < self.history().len() ==> norm(#[trigger] self.history()[i]) == self.history()[i]
        &&& self.tabs_of().dom().finite()
        &&& match self.active_tab {
            Some(k) => self.tabs_of().dom().contains(k.id()),
            None => true,
        }
        &&& crate::scheduler::jobs_wf(self.background_tasks@)
        &&& self.collections.wf()
    }

    /// No tabs, no history, no job slots.
    pub fn new() -> (r: Self)
        ensures
            r.wf(),
            r.active_tab.is_none(),
            r.tabs_of().dom().is_empty(),
            r.history().len() == 0,
            r.background_tasks@.len() == 0,
            r.collections.view().dom().is_empty(),
    {
        AppState {
            active_tab: None,
            tab_history: history_new(),
            tabs: TabArena::new(),
            collections: Collections::new(),
            background_tasks: Vec::new(),
        }
    }

    /// Makes tab `tab` active and moves it to the newest end of the history.
    /// A handle of no open tab changes nothing.
    pub fn switch_tab(&mut self, tab: TabKey)
        requires
            old(self).wf(),
        ensures
            final(self).wf(),
            final(self).tabs_of() == old(self).tabs_of(),
            final(self).background_tasks == old(self).background_tasks,
            final(self).collections == old(self).collections,
            old(self).tabs_of().dom().contains(tab.id()) ==> final(self).active_tab == Some(tab)
                && final(self).history() == without(old(self).history(), tab.id()).push(tab.id()),
            !old(self).tabs_of().dom().contains(tab.id()) ==> final(self).active_tab == old(self).active_tab
                && final(self).history() == old(self).history(),
    {
        let id = tab.id_exec();
        proof {
            lemma_norm_idempotent(tab.bits_spec());
        }
        if !self.tabs.contains_key(id) {
            return;
        }
        self.activate(tab);
    }

    /// Opens `tab` and makes it active.
    pub fn open_tab(&mut self, tab: Tab) -> (r: TabKey)
        requires
            old(self).wf(),
            old(self).tabs_of().dom().len() + 1 < u32::MAX,
        ensures
            final(self).wf(),
            !old(self).tabs_of().dom().contains(r.id()),
            final(self).tabs_of() == old(self).tabs_of().insert(r.id(), tab),
            final(self).active_tab == Some(r),
            final(self).history() == without(old(self).history(), r.id()).push(r.id()),
            final(self).background_tasks == old(self).background_tasks,
            final(self).collections == old(self).collections,
    {
        let id = self.tabs.insert(tab);
        let key = TabKey::from_bits(id);
        proof {
            assert forall|x: u64| #[trigger] self.tabs_of().dom().contains(x) implies norm(x) == x by {
                if x != id {
                    assert(old(self).tabs_of().dom().contains(x));
                }
            }
        }
        self.activate(key);
        key
    }

    /// Makes open tab `tab` active and moves it to the newest end of the
    /// history, where `tab` may be missing from the history.
    fn activate(&mut self, tab: TabKey)
        requires
            old(self).history().no_duplicates(),
            forall|id: u64| #[trigger] old(self).tabs_of().dom().contains(id) && id != tab.id() ==> old(self).history().contains(id),
            forall|id: u64| #[trigger] old(self).tabs_of().dom().contains(id) ==> norm(id) == id,
            forall|i: int| 0 <= i < old(self).history().len() ==> norm(#[trigger] old(self).history()[i]) == old(self).history()[i],
            old(self).tabs_of().dom().finite(),
            old(self).tabs_of().dom().contains(tab.id()),
            crate::scheduler::jobs_wf(old(self).background_tasks@),
            old(self).collections.wf(),
        ensures
            final(self).wf(),
            final(self).tabs_of() == old(self).tabs_of(),
            final(self).background_tasks == old(self).background_tasks,
            final(self).collections == old(self).collections,
            final(self).active_tab == Some(tab),
            final(self).history() == without(old(self).history(), tab.id()).push(tab.id()),
    {
        let id = tab.id_exec();
        proof {
            lemma_norm_idempotent(tab.bits_spec());
        }
        self.active_tab = Some(tab);
        let ghost h0 = self.history();
        history_shift_remove(&mut self.tab_history, id);
        proof {
            lemma_without(h0, id);
        }
        let ghost h1 = self.history();
        history_insert(&mut self.tab_history, id);
        proof {
            let h2 = self.history();
            assert(h2 == h1.push(id));
            assert forall|i: int, j: int| 0 <= i < h2.len() && 0 <= j < h2.len() && i != j implies h2[i] != h2[j] by {
                if i < h1.len() && j < h1.len() {
                    assert(h2[i] == h1[i] && h2[j] == h1[j]);
                } else if i < h1.len() {
                    assert(h1.contains(h1[i]));
                } else {
                    assert(h1.contains(h1[j]));
                }
            }
            assert forall|x: u64| #[trigger] self.tabs_of().dom().contains(x) implies h2.contains(x) by {
                if x != id {
                    assert(h0.contains(x));
                    assert(h1.contains(x));
                    let i = choose|i: int| 0 <= i < h1.len() && h1[i] == x;
                    assert(h2[i] == x);
                } else {
                    assert(h2[h1.len() as int] == x);
                }
            }
            assert forall|i: int| 0 <= i < h2.len() implies norm(#[trigger] h2[i]) == h2[i] by {
                if i < h1.len() {
                    assert(h2[i] == h1[i]);
                    assert(h1.contains(h1[i]));
                    assert(h0.contains(h1[i]));
                    let k = choose|k: int| 0 <= k < h0.len() && h0[k] == h1[i];
                }
            }
        }
    }

    /// Signals cancellation to the sends of tab `tab` and returns its
    /// response pane to idle. Anything but an open request tab is left as is.
    pub fn cancel_tab_tasks(&mut self, tab: TabKey)
        requires
            old(self).wf(),
        ensures
            final(self).wf(),
            final(self).active_tab == old(self).active_tab,
            final(self).history() == old(self).history(),
            final(self).background_tasks == old(self).background_tasks,
            final(self).collections == old(self).collections,
            final(self).tabs_of().dom() == old(self).tabs_of().dom(),
            forall|id: u64| #[trigger] old(self).tabs_of().dom().contains(id) && id != tab.id() ==> final(self).tabs_of()[id]
                == old(self).tabs_of()[id],
            old(self).tabs_of().dom().contains(tab.id()) ==> cancelled_from(
                final(self).tabs_of()[tab.id()],
                old(self).tabs_of()[tab.id()],
            ),
    {
        let id = tab.id_exec();
        proof {
            lemma_norm_idempotent(tab.bits_spec());
        }
        match self.tabs.get_mut(id) {
            Some(t) => {
                match t {
                    Tab::Http(h) => {
                        h.cancel_tasks();
                        h.response.state = ResponseState::Idle;
                    },
                    _ => {},
                }
            },
            None => {},
        }
        proof {
            assert(self.tabs_of().dom() =~= old(self).tabs_of().dom());
        }
    }

    /// Closes tab `tab`: its sends are cancelled and it leaves the arena.
    /// When it was the active tab, the newest history entry that names a tab
    /// still open becomes active (entries after it are discarded), or no tab
    /// is active when none does. A handle of no open tab changes nothing.
    pub fn close_tab(&mut self, tab: TabKey)
        requires
            old(self).wf(),
        ensures
            final(self).wf(),
            final(self).background_tasks == old(self).background_tasks,
            final(self).collections == old(self).collections,
            old(self).tabs_of().dom().contains(tab.id()) ==> final(self).tabs_of() == old(self).tabs_of().remove(tab.id()),
            old(self).tabs_of().dom().contains(tab.id()) && old(self).active_id() == Some(tab.id())
                ==> final(self).history() == fallback(old(self).history(), final(self).tabs_of().dom()).0
                && final(self).active_id() == fallback(old(self).history(), final(self).tabs_of().dom()).1,
            old(self).tabs_of().dom().contains(tab.id()) && old(self).active_id() != Some(tab.id())
                ==> final(self).history() == old(self).history() && final(self).active_tab == old(self).active_tab,
            !old(self).tabs_of().dom().contains(tab.id()) ==> final(self).tabs_of() == old(self).tabs_of()
                && final(self).history() == old(self).history() && final(self).active_tab == old(self).active_tab,
    {
        let id = tab.id_exec();
        proof {
            lemma_norm_idempotent(tab.bits_spec());
        }
        if !self.tabs.contains_key(id) {
            return;
        }
        self.cancel_tab_tasks(tab);
        let was_active = match self.active_tab {
            Some(a) => a.id_exec() == id,
            None => false,
        };
        let ghost before = self.tabs_of();
        let _ = self.tabs.remove(id);
        proof {
            assert(self.tabs_of() =~= old(self).tabs_of().remove(tab.id()));
        }
        if !was_active {
            return;
        }
        self.active_tab = None;
        let ghost h_old = self.history();
        let ghost open = self.tabs_of().dom();
        loop
            invariant_except_break
                self.active_tab.is_none(),
                self.history().no_duplicates(),
                forall|i: int| 0 <= i < self.history().len() ==> norm(#[trigger] self.history()[i]) == self.history()[i],
                fallback(self.history(), open) == fallback(h_old, open),
                forall|x: u64| #[trigger] open.contains(x) ==> self.history().contains(x),
            invariant
                self.tabs_of().dom() == open,
                self.tabs_of() == old(self).tabs_of().remove(id),
                self.background_tasks == old(self).background_tasks,
                self.collections == old(self).collections,
                crate::scheduler::jobs_wf(self.background_tasks@),
                self.collections.wf(),
                forall|x: u64| #[trigger] open.contains(x) ==> norm(x) == x,
                open.finite(),
            ensures
                final(self).wf(),
                final(self).tabs_of() == old(self).tabs_of().remove(id),
                final(self).background_tasks == old(self).background_tasks,
            final(self).collections == old(self).collections,
                final(self).history() == fallback(h_old, open).0,
                final(self).active_id() == fallback(h_old, open).1,
            decreases self.history().len(),
        {
            let ghost h = self.history();
            match history_pop(&mut self.tab_history) {
                None => {
                    proof {
                        assert(h.len() == 0);
                        assert forall|x: u64| #[trigger] open.contains(x) implies self.history().contains(x) by {
                            assert(h.contains(x));
                        }
                    }
                    break;
                },
                Some(next) => {
                    proof {
                        assert(h.drop_last().push(h.last()) =~= h);
                        assert(next == h[h.len() - 1]);
                    }
                    if self.tabs.contains_key(next) {
                        proof {
                            assert(norm(next) == next);
                            assert(!h.drop_last().contains(next)) by {
                                if h.drop_last().contains(next) {
                                    let i = choose|i: int| 0 <= i < h.drop_last().len() && h.drop_last()[i] == next;
                                    assert(h[i] == h[h.len() - 1]);
                                }
                            }
                            lemma_without(h.drop_last(), next);
                            assert forall|x: u64| #[trigger] open.contains(x) && x != next implies h.drop_last().contains(x) by {
                                let i = choose|i: int| 0 <= i < h.len() && h[i] == x;
                                assert(i != h.len() - 1);
                                assert(h.drop_last()[i] == x);
                            }
                            assert forall|i: int| 0 <= i < h.drop_last().len() implies norm(#[trigger] h.drop_last()[i]) == h.drop_last()[i] by {
                                assert(h.drop_last()[i] == h[i]);
                            }
                            assert(h.drop_last().no_duplicates()) by {
                                assert forall|i: int, j: int| 0 <= i < h.drop_last().len() && 0 <= j < h.drop_last().len() && i != j implies h.drop_last()[i] != h.drop_last()[j] by {
                                    assert(h.drop_last()[i] == h[i] && h.drop_last()[j] == h[j]);
                                }
                            }
                        }
                        let key = TabKey::from_bits(next);
                        self.activate(key);
                        proof {
                            assert(without(h.drop_last(), next).push(next) == h);
                        }
                        break;
                    } else {
                        proof {
                            assert forall|i: int, j: int| 0 <= i < self.history().len() && 0 <= j < self.history().len() && i != j implies self.history()[i] != self.history()[j] by {
                                assert(self.history()[i] == h[i] && self.history()[j] == h[j]);
                            }
                            assert forall|i: int| 0 <= i < self.history().len() implies norm(#[trigger] self.history()[i]) == self.history()[i] by {
                                assert(self.history()[i] == h[i]);
                            }
                            assert forall|x: u64| #[trigger] open.contains(x) implies self.history().contains(x) by {
                                let i = choose|i: int| 0 <= i < h.len() && h[i] == x;
                                assert(i != h.len() - 1);
                                assert(self.history()[i] == x);
                            }
                        }
                    }
                },
            }
        }
    }

    /// The tab of handle `key`, if open.
    pub fn get_tab(&self, key: TabKey) -> (r: Option<&Tab>)
        ensures
            r.is_some() == self.tabs_of().dom().contains(key.id()),
            r.is_some() ==> *r.unwrap() == self.tabs_of()[key.id()],
    {
        let id = key.id_exec();
        proof {
            lemma_norm_idempotent(key.bits_spec());
        }
        self.tabs.get(id)
    }

    /// The tab of handle `key`, if open, to edit in place.
    pub fn get_tab_mut(&mut self, key: TabKey) -> (r: Option<&mut Tab>)
        ensures
            r.is_some() == old(self).tabs_of().dom().contains(key.id()),
            r.is_none() ==> final(self).tabs_of() == old(self).tabs_of(),
            r.is_some() ==> *r.unwrap() == old(self).tabs_of()[key.id()] && final(self).tabs_of()
                == old(self).tabs_of().insert(key.id(), *final(r.unwrap())),
            final(self).active_tab == old(self).active_tab,
            final(self).history() == old(self).history(),
            final(self).background_tasks == old(self).background_tasks,
            final(self).collections == old(self).collections,
    {
        let id = key.id_exec();
        proof {
            lemma_norm_idempotent(key.bits_spec());
        }
        self.tabs.get_mut(id)
    }

    /// The active tab, if any.
    pub fn active_tab(&self) -> (r: Option<&Tab>)
        ensures
            r.is_some() == (self.active_tab.is_some() && self.tabs_of().dom().contains(self.active_tab.unwrap().id())),
            r.is_some() ==> *r.unwrap() == self.tabs_of()[self.active_tab.unwrap().id()],
    {
        match self.active_tab {
            Some(k) => self.get_tab(k),
            None => None,
        }
    }

    /// The active tab, if any, to edit in place.
    pub fn active_tab_mut(&mut self) -> (r: Option<&mut Tab>)
        ensures
            r.is_some() == (old(self).active_tab.is_some() && old(self).tabs_of().dom().contains(
                old(self).active_tab.unwrap().id(),
            )),
            r.is_none() ==> final(self).tabs_of() == old(self).tabs_of(),
            r.is_some() ==> *r.unwrap() == old(self).tabs_of()[old(self).active_tab.unwrap().id()] && final(self).tabs_of()
                == old(self).tabs_of().insert(old(self).active_tab.unwrap().id(), *final(r.unwrap())),
            final(self).active_tab == old(self).active_tab,
            final(self).history() == old(self).history(),
            final(self).background_tasks == old(self).background_tasks,
            final(self).collections == old(self).collections,
    {
        match self.active_tab {
            Some(k) => self.get_tab_mut(k),
            None => None,
        }
    }

    /// Opens `default` as a new tab and makes it active.
    pub fn open_new_tab(&mut self, default: Tab)
        requires
            old(self).wf(),
            old(self).tabs_of().dom().len() + 1 < u32::MAX,
        ensures
            final(self).wf(),
            final(self).background_tasks == old(self).background_tasks,
            final(self).collections == old(self).collections,
            exists|k: TabKey|
                !old(self).tabs_of().dom().contains(k.id()) && final(self).tabs_of() == old(self).tabs_of().insert(k.id(), default)
                    && final(self).active_tab == Some(k),
    {
        let _ = self.open_tab(default);
    }

    /// When an open request tab edits the persisted request `req`, makes
    /// such a tab active and returns true; otherwise changes nothing and
    /// returns false.
    pub fn switch_to_tab(&mut self, req: CollectionRequest) -> (r: bool)
        requires
            old(self).wf(),
        ensures
            final(self).wf(),
            final(self).tabs_of() == old(self).tabs_of(),
            final(self).background_tasks == old(self).background_tasks,
            final(self).collections == old(self).collections,
            r == exists|id: u64| #[trigger] old(self).tabs_of().dom().contains(id) && refers_to(old(self).tabs_of()[id], req),
            r ==> exists|k: TabKey|
                #[trigger] old(self).tabs_of().dom().contains(k.id()) && refers_to(old(self).tabs_of()[k.id()], req)
                    && final(self).active_tab == Some(k) && final(self).history() == without(
                    old(self).history(),
                    k.id(),
                ).push(k.id()),
            !r ==> final(self).active_tab == old(self).active_tab && final(self).history() == old(self).history(),
    {
        let ids = self.tabs.keys();
        let mut i: usize = 0;
        while i < ids.len()
            invariant
                0 <= i <= ids.len(),
                self == old(self),
                self.wf(),
                ids@.to_set() == self.tabs_of().dom(),
                forall|j: int| 0 <= j < i ==> !refers_to(self.tabs_of()[#[trigger] ids@[j]], req),
            decreases ids.len() - i,
        {
            let id = ids[i];
            proof {
                assert(ids@[i as int] == id);
                assert(ids@.contains(id));
                assert(ids@.to_set().contains(id));
                assert(norm(id) == id);
            }
            let found = match self.tabs.get(id) {
                Some(Tab::Http(h)) => match h.collection_ref {
                    Some(c) => c == req,
                    None => false,
                },
                _ => false,
            };
            if found {
                let key = TabKey::from_bits(id);
                assert(key.id() == id);
                self.activate(key);
                return true;
            }
            i = i + 1;
        }
        proof {
            assert forall|id: u64| #[trigger] old(self).tabs_of().dom().contains(id) implies !refers_to(old(self).tabs_of()[id], req) by {
                assert(ids@.to_set().contains(id));
                let j = choose|j: int| 0 <= j < ids.len() && ids@[j] == id;
            }
        }
        false
    }
}

impl Default for AppState {
    fn default() -> (r: Self)
        ensures
            r.wf(),
            r.active_tab.is_none(),
            r.tabs_of().dom().is_empty(),
            r.history().len() == 0,
            r.background_tasks@.len() == 0,
            r.collections.view().dom().is_empty(),
    {
        Self::new()
    }
}

/// Closing the active tab activates the most recently activated tab that
/// is still open, or no tab when none is open: with a duplicate-free
/// history that holds every open tab, the fallback is an open tab newer in
/// the history than every other open tab, and there is none exactly when
/// no tab is open.
pub proof fn lemma_close_fallback(h: Seq<u64>, open: Set<u64>)
    requires
        h.no_duplicates(),
        forall|x: u64| #[trigger] open.contains(x) ==> h.contains(x),
    ensures
        fallback(h, open).1.is_none() <==> open.is_empty(),
        fallback(h, open).1.is_some() ==> ({
            let x = fallback(h, open).1.unwrap();
            &&& open.contains(x)
            &&& exists|i: int|
                0 <= i < h.len() && h[i] == x && forall|j: int| i < j < h.len() ==> !open.contains(#[trigger] h[j])
        }),
    decreases h.len(),
{
    if h.len() == 0 {
        if !open.is_empty() {
            let x = open.choose();
            assert(open.contains(x));
        }
    } else if open.contains(h.last()) {
        assert(h[h.len() - 1] == h.last());
    } else {
        let d = h.drop_last();
        assert forall|x: u64| #[trigger] open.contains(x) implies d.contains(x) by {
            let i = choose|i: int| 0 <= i < h.len() && h[i] == x;
            assert(i != h.len() - 1);
            assert(d[i] == x);
        }
        assert(d.no_duplicates()) by {
            assert forall|i: int, j: int| 0 <= i < d.len() && 0 <= j < d.len() && i != j implies d[i] != d[j] by {
                assert(d[i] == h[i] && d[j] == h[j]);
            }
        }
        lemma_close_fallback(d, open);
        if fallback(h, open).1.is_some() {
            let x = fallback(h, open).1.unwrap();
            let i = choose|i: int| 0 <= i < d.len() && d[i] == x && forall|j: int| i < j < d.len() ==> !open.contains(#[trigger] d[j]);
            assert(h[i] == x);
            assert forall|j: int| i < j < h.len() implies !open.contains(#[trigger] h[j]) by {
                if j < h.len() - 1 {
                    assert(h[j] == d[j]);
                }
            }
        }
    }
}

} // verus!
