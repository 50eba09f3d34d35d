//! The collection store: per collection, an ordered forest of folders and
//! request references rooted at a filesystem path, with named environments
//! and a dirty flag.
use vstd::prelude::*;

use slotmap::Key;
use std::path::PathBuf;

use crate::keys::{lemma_norm_idempotent, norm, slot_index, CollectionKey};
use crate::paths::{join, path_join};
use crate::request::KeyValue;

verus! {

/// Identifier of a folder, unique within its collection.
#[derive(Debug, Clone, Copy, PartialEq, Eq, Structural, Hash)]
pub struct FolderId(pub u64);

/// Identifier of a request, unique within its collection.
#[derive(Debug, Clone, Copy, PartialEq, Eq, Structural, Hash)]
pub struct RequestId(pub u64);

/// A persisted request, named by its collection and its id.
#[derive(Debug, Clone, Copy, PartialEq, Eq, Structural, Hash)]
pub struct CollectionRequest(pub CollectionKey, pub RequestId);

/// A persisted request, without its body.
#[derive(Debug, Clone)]
pub struct RequestRef {
    pub name: String,
    pub id: RequestId,
    pub path: PathBuf,
}

#[derive(Debug)]
pub struct Folder {
    pub id: FolderId,
    pub name: String,
    pub path: PathBuf,
    pub children: Vec<Entry>,
}

/// A node of a collection's tree; siblings are kept in display order.
#[derive(Debug)]
pub enum Entry {
    Folder(Folder),
    Item(RequestRef),
}

/// Whether entry `e` is, or holds at any depth, a folder with id `id`.
pub open spec fn entry_holds(e: Entry, id: FolderId) -> bool
    decreases e,
{
    match e {
        Entry::Folder(f) => f.id == id || exists|i: int|
            0 <= i < f.children@.len() && entry_holds(#[trigger] f.children@[i], id),
        Entry::Item(_) => false,
    }
}

/// Whether the forest `es` holds a folder with id `id` at any depth.
pub open spec fn holds_folder(es: Seq<Entry>, id: FolderId) -> bool {
    exists|i: int| 0 <= i < es.len() && entry_holds(#[trigger] es[i], id)
}

/// Whether folder `f` appears, at any depth, in entry `e`.
pub open spec fn entry_within(e: Entry, f: Folder) -> bool
    decreases e,
{
    match e {
        Entry::Folder(g) => g == f || exists|i: int|
            0 <= i < g.children@.len() && entry_within(#[trigger] g.children@[i], f),
        Entry::Item(_) => false,
    }
}

/// Whether folder `f` appears, at any depth, in the forest `es`.
pub open spec fn within(es: Seq<Entry>, f: Folder) -> bool {
    exists|i: int| 0 <= i < es.len() && entry_within(#[trigger] es[i], f)
}

/// Whether entry `e` is a folder holding, or holds at any depth, a request
/// with id `id`.
pub open spec fn entry_has_request(e: Entry, r: RequestRef) -> bool
    decreases e,
{
    match e {
        Entry::Folder(g) => exists|i: int|
            0 <= i < g.children@.len() && entry_has_request(#[trigger] g.children@[i], r),
        Entry::Item(x) => x == r,
    }
}

/// Whether the request reference `r` appears, at any depth, in `es`.
pub open spec fn has_request(es: Seq<Entry>, r: RequestRef) -> bool {
    exists|i: int| 0 <= i < es.len() && entry_has_request(#[trigger] es[i], r)
}

/// Index `i` is the first entry of `es` that is or holds folder `id`.
pub open spec fn first_holder(es: Seq<Entry>, id: FolderId, i: int) -> bool {
    &&& 0 <= i < es.len()
    &&& entry_holds(es[i], id)
    &&& forall|j: int| 0 <= j < i ==> !entry_holds(#[trigger] es[j], id)
}

/// `n` is folder entry `o` with the same id, name and path.
pub open spec fn same_folder(o: Entry, n: Entry) -> bool {
    &&& o is Folder
    &&& n is Folder
    &&& n->Folder_0.id == o->Folder_0.id
    &&& n->Folder_0.name == o->Folder_0.name
    &&& n->Folder_0.path == o->Folder_0.path
}

/// `new` is `old` with `e` appended to the children of the first folder
/// with id `parent` (depth first); everything else is unchanged.
pub open spec fn placed(old: Seq<Entry>, new: Seq<Entry>, parent: FolderId, e: Entry) -> bool
    decreases old,
{
    &&& old.len() == new.len()
    &&& exists|i: int|
        #[trigger] first_holder(old, parent, i) && (forall|j: int| 0 <= j < old.len() && j != i ==> new[j] == old[j])
            && same_folder(old[i], new[i]) && (if old[i]->Folder_0.id == parent {
            new[i]->Folder_0.children@ == old[i]->Folder_0.children@.push(e)
        } else {
            placed(old[i]->Folder_0.children@, new[i]->Folder_0.children@, parent, e)
        })
}

/// `new` is `old` without the first folder with id `id` (depth first) and
/// its subtree, whose path is `path`; everything else is unchanged.
pub open spec fn pruned(old: Seq<Entry>, new: Seq<Entry>, id: FolderId, path: PathBuf) -> bool
    decreases old,
{
    exists|i: int|
        #[trigger] first_holder(old, id, i) && (if old[i] is Folder && old[i]->Folder_0.id == id {
            new == old.remove(i) && path == old[i]->Folder_0.path
        } else {
            &&& new.len() == old.len()
            &&& forall|j: int| 0 <= j < old.len() && j != i ==> new[j] == old[j]
            &&& same_folder(old[i], new[i])
            &&& pruned(old[i]->Folder_0.children@, new[i]->Folder_0.children@, id, path)
        })
}

fn entry_holds_exec(e: &Entry, id: FolderId) -> (r: bool)
    ensures
        r == entry_holds(*e, id),
    decreases e,
{
    match e {
        Entry::Folder(f) => {
            if f.id == id {
                true
            } else {
                holds_folder_exec(&f.children, id)
            }
        },
        Entry::Item(_) => false,
    }
}

fn holds_folder_exec(es: &Vec<Entry>, id: FolderId) -> (r: bool)
    ensures
        r == holds_folder(es@, id),
    decreases es,
{
    let mut i: usize = 0;
    while i < es.len()
        invariant
            0 <= i <= es.len(),
            forall|j: int| 0 <= j < i ==> !entry_holds(#[trigger] es@[j], id),
        decreases es.len() - i,
    {
        proof {
            assert(decreases_to!(es => es@[i as int]));
        }
        if entry_holds_exec(&es[i], id) {
            return true;
        }
        i = i + 1;
    }
    false
}

fn first_holder_index(es: &Vec<Entry>, id: FolderId) -> (r: usize)
    requires
        holds_folder(es@, id),
    ensures
        first_holder(es@, id, r as int),
{
    let mut i: usize = 0;
    while i < es.len()
        invariant
            0 <= i <= es.len(),
            holds_folder(es@, id),
            forall|j: int| 0 <= j < i ==> !entry_holds(#[trigger] es@[j], id),
        decreases es.len() - i,
    {
        if entry_holds_exec(&es[i], id) {
            return i;
        }
        i = i + 1;
    }
    proof {
        let k = choose|k: int| 0 <= k < es@.len() && entry_holds(#[trigger] es@[k], id);
        assert(!entry_holds(es@[k], id));
    }
    0
}

/// The first folder with id `id` in `es`, depth first.
fn find_folder(es: &Vec<Entry>, id: FolderId) -> (r: Option<&Folder>)
    ensures
        r.is_some() == holds_folder(es@, id),
        r.is_some() ==> r.unwrap().id == id && within(es@, *r.unwrap()),
    decreases es,
{
    if !holds_folder_exec(es, id) {
        return None;
    }
    let i = first_holder_index(es, id);
    proof {
        assert(decreases_to!(es => es@[i as int]));
    }
    match &es[i] {
        Entry::Folder(f) => {
            if f.id == id {
                assert(entry_within(es@[i as int], *f));
                Some(f)
            } else {
                let r = find_folder(&f.children, id);
                proof {
                    let g = *r.unwrap();
                    let k = choose|k: int| 0 <= k < f.children@.len() && entry_within(#[trigger] f.children@[k], g);
                    assert(entry_within(es@[i as int], g));
                }
                r
            }
        },
        Entry::Item(_) => {
            proof {
                assert(!entry_holds(es@[i as int], id));
            }
            None
        },
    }
}

/// Appends `e` to the children of the first folder with id `parent`.
fn place(es: &mut Vec<Entry>, parent: FolderId, e: Entry)
    requires
        holds_folder(old(es)@, parent),
    ensures
        placed(old(es)@, final(es)@, parent, e),
    decreases old(es)@,
{
    let i = first_holder_index(es, parent);
    let ghost before = es@;
    let entry = es.remove(i);
    match entry {
        Entry::Folder(mut f) => {
            let ghost f0 = f;
            if f.id == parent {
                f.children.push(e);
            } else {
                proof {
                    assert(decreases_to!(before => before[i as int]));
                }
                place(&mut f.children, parent, e);
            }
            es.insert(i, Entry::Folder(f));
            proof {
                assert(first_holder(before, parent, i as int));
                assert forall|j: int| 0 <= j < before.len() && j != i implies es@[j] == before[j] by {
                    if j < i {
                        assert(es@[j] == before[j]);
                    } else {
                        assert(es@[j] == before[j]);
                    }
                }
                assert(same_folder(before[i as int], es@[i as int]));
            }
        },
        Entry::Item(x) => {
            proof {
                assert(!entry_holds(before[i as int], parent));
            }
            es.insert(i, Entry::Item(x));

        },
    }
}

/// Removes the first folder with id `id` and its subtree; returns its path.
fn prune(es: &mut Vec<Entry>, id: FolderId) -> (r: Option<PathBuf>)
    requires
        holds_folder(old(es)@, id),
    ensures
        r.is_some(),
        pruned(old(es)@, final(es)@, id, r.unwrap()),
    decreases old(es)@,
{
    let i = first_holder_index(es, id);
    let ghost before = es@;
    let is_target = match &es[i] {
        Entry::Folder(f) => f.id == id,
        Entry::Item(_) => false,
    };
    if is_target {
        let entry = es.remove(i);
        match entry {
            Entry::Folder(f) => {
                proof {
                    assert(first_holder(before, id, i as int));
                }
                Some(f.path)
            },
            Entry::Item(_) => {
                proof {
                    assert(false);
                }
                None
            },
        }
    } else {
        let entry = es.remove(i);
        match entry {
            Entry::Folder(mut f) => {
                proof {
                    assert(decreases_to!(before => before[i as int]));
                }
                let path = prune(&mut f.children, id);
                es.insert(i, Entry::Folder(f));
                proof {
                    assert(first_holder(before, id, i as int));
                    assert forall|j: int| 0 <= j < before.len() && j != i implies es@[j] == before[j] by {
                        assert(es@[j] == before[j]);
                    }
                    assert(same_folder(before[i as int], es@[i as int]));
                }
                path
            },
            Entry::Item(x) => {
                proof {
                    assert(!entry_holds(before[i as int], id));
                }
                es.insert(i, Entry::Item(x));
                None
            },
        }
    }
}

/// Whether the forest `es` holds a request with id `id` at any depth.
pub open spec fn holds_request(es: Seq<Entry>, id: RequestId) -> bool {
    exists|r: RequestRef| r.id == id && #[trigger] has_request(es, r)
}

fn entry_request(e: &Entry, id: RequestId) -> (r: Option<&RequestRef>)
    ensures
        r.is_some() ==> r.unwrap().id == id && entry_has_request(*e, *r.unwrap()),
        r.is_none() ==> forall|x: RequestRef| x.id == id ==> !entry_has_request(*e, x),
    decreases e,
{
    match e {
        Entry::Item(x) => {
            if x.id == id {
                Some(x)
            } else {
                None
            }
        },
        Entry::Folder(f) => {
            let r = find_request(&f.children, id);
            proof {
                if r.is_some() {
                    let k = choose|k: int| 0 <= k < f.children@.len() && entry_has_request(#[trigger] f.children@[k], *r.unwrap());
                }
                if r.is_none() {
                    assert forall|x: RequestRef| x.id == id implies !entry_has_request(*e, x) by {
                        assert(!has_request(f.children@, x));
                    }
                }
            }
            r
        },
    }
}

/// The first request with id `id` in `es`, depth first.
fn find_request(es: &Vec<Entry>, id: RequestId) -> (r: Option<&RequestRef>)
    ensures
        r.is_some() ==> r.unwrap().id == id && has_request(es@, *r.unwrap()),
        r.is_none() ==> !holds_request(es@, id),
    decreases es,
{
    let mut i: usize = 0;
    while i < es.len()
        invariant
            0 <= i <= es.len(),
            forall|j: int, x: RequestRef| 0 <= j < i && x.id == id ==> !#[trigger] entry_has_request(es@[j], x),
        decreases es.len() - i,
    {
        proof {
            assert(decreases_to!(es => es@[i as int]));
        }
        let r = entry_request(&es[i], id);
        if r.is_some() {
            return r;
        }
        i = i + 1;
    }
    proof {
        assert forall|x: RequestRef| x.id == id implies !#[trigger] has_request(es@, x) by {
            if has_request(es@, x) {
                let k = choose|k: int| 0 <= k < es@.len() && entry_has_request(#[trigger] es@[k], x);
                assert(!entry_has_request(es@[k], x));
            }
        }
    }
    None
}

/// Every folder and request id in entry `e` is below `n`.
pub open spec fn entry_ids_below(e: Entry, n: u64) -> bool
    decreases e,
{
    match e {
        Entry::Folder(f) => f.id.0 < n && forall|i: int|
            0 <= i < f.children@.len() ==> entry_ids_below(#[trigger] f.children@[i], n),
        Entry::Item(r) => r.id.0 < n,
    }
}

/// Every folder and request id in the forest `es` is below `n`.
pub open spec fn ids_below(es: Seq<Entry>, n: u64) -> bool {
    forall|i: int| 0 <= i < es.len() ==> entry_ids_below(#[trigger] es[i], n)
}

proof fn lemma_entry_ids_grow(e: Entry, n: u64, m: u64)
    requires
        entry_ids_below(e, n),
        n <= m,
    ensures
        entry_ids_below(e, m),
    decreases e,
{
    if let Entry::Folder(f) = e {
        assert forall|i: int| 0 <= i < f.children@.len() implies entry_ids_below(#[trigger] f.children@[i], m) by {
            assert(decreases_to!(e => f.children@[i]));
            lemma_entry_ids_grow(f.children@[i], n, m);
        }
    }
}

proof fn lemma_fresh_folder(e: Entry, n: u64)
    requires
        entry_ids_below(e, n),
    ensures
        !entry_holds(e, FolderId(n)),
    decreases e,
{
    if let Entry::Folder(f) = e {
        assert forall|i: int| 0 <= i < f.children@.len() implies !entry_holds(#[trigger] f.children@[i], FolderId(n)) by {
            assert(decreases_to!(e => f.children@[i]));
            lemma_fresh_folder(f.children@[i], n);
        }
    }
}

proof fn lemma_fresh_request(e: Entry, n: u64, r: RequestRef)
    requires
        entry_ids_below(e, n),
        r.id == RequestId(n),
    ensures
        !entry_has_request(e, r),
    decreases e,
{
    if let Entry::Folder(f) = e {
        assert forall|i: int| 0 <= i < f.children@.len() implies !entry_has_request(#[trigger] f.children@[i], r) by {
            assert(decreases_to!(e => f.children@[i]));
            lemma_fresh_request(f.children@[i], n, r);
        }
    }
}

/// No folder or request in a forest whose ids are below `n` has id `n`.
pub proof fn lemma_fresh_id(es: Seq<Entry>, n: u64)
    requires
        ids_below(es, n),
    ensures
        !holds_folder(es, FolderId(n)),
        !holds_request(es, RequestId(n)),
{
    assert forall|i: int| 0 <= i < es.len() implies !entry_holds(#[trigger] es[i], FolderId(n)) by {
        lemma_fresh_folder(es[i], n);
    }
    assert forall|r: RequestRef| r.id == RequestId(n) implies !#[trigger] has_request(es, r) by {
        assert forall|i: int| 0 <= i < es.len() implies !entry_has_request(#[trigger] es[i], r) by {
            lemma_fresh_request(es[i], n, r);
        }
    }
}

proof fn lemma_ids_grow(es: Seq<Entry>, n: u64, m: u64)
    requires
        ids_below(es, n),
        n <= m,
    ensures
        ids_below(es, m),
{
    assert forall|i: int| 0 <= i < es.len() implies entry_ids_below(#[trigger] es[i], m) by {
        lemma_entry_ids_grow(es[i], n, m);
    }
}

proof fn lemma_placed_ids(old: Seq<Entry>, new: Seq<Entry>, parent: FolderId, e: Entry, n: u64)
    requires
        placed(old, new, parent, e),
        ids_below(old, n),
        entry_ids_below(e, n),
    ensures
        ids_below(new, n),
    decreases old,
{
    let i = choose|i: int|
        #[trigger] first_holder(old, parent, i) && (forall|j: int| 0 <= j < old.len() && j != i ==> new[j] == old[j])
            && same_folder(old[i], new[i]) && (if old[i]->Folder_0.id == parent {
            new[i]->Folder_0.children@ == old[i]->Folder_0.children@.push(e)
        } else {
            placed(old[i]->Folder_0.children@, new[i]->Folder_0.children@, parent, e)
        });
    let f = old[i]->Folder_0;
    let g = new[i]->Folder_0;
    assert(entry_ids_below(old[i], n));
    if f.id == parent {
        assert forall|k: int| 0 <= k < g.children@.len() implies entry_ids_below(#[trigger] g.children@[k], n) by {
            if k < f.children@.len() {
                assert(g.children@[k] == f.children@[k]);
            }
        }
    } else {
        assert(decreases_to!(old => old[i]));
        assert(decreases_to!(old[i] => f.children@));
        lemma_placed_ids(f.children@, g.children@, parent, e, n);
    }
    assert(entry_ids_below(new[i], n));
    assert forall|k: int| 0 <= k < new.len() implies entry_ids_below(#[trigger] new[k], n) by {
        if k != i {
            assert(new[k] == old[k]);
        }
    }
}

proof fn lemma_pruned_ids(old: Seq<Entry>, new: Seq<Entry>, id: FolderId, path: PathBuf, n: u64)
    requires
        pruned(old, new, id, path),
        ids_below(old, n),
    ensures
        ids_below(new, n),
    decreases old,
{
    let i = choose|i: int|
        #[trigger] first_holder(old, id, i) && (if old[i] is Folder && old[i]->Folder_0.id == id {
            new == old.remove(i) && path == old[i]->Folder_0.path
        } else {
            &&& new.len() == old.len()
            &&& forall|j: int| 0 <= j < old.len() && j != i ==> new[j] == old[j]
            &&& same_folder(old[i], new[i])
            &&& pruned(old[i]->Folder_0.children@, new[i]->Folder_0.children@, id, path)
        });
    if old[i] is Folder && old[i]->Folder_0.id == id {
        assert forall|k: int| 0 <= k < new.len() implies entry_ids_below(#[trigger] new[k], n) by {
            if k < i {
                assert(new[k] == old[k]);
            } else {
                assert(new[k] == old[k + 1]);
            }
        }
    } else {
        let f = old[i]->Folder_0;
        let g = new[i]->Folder_0;
        assert(entry_ids_below(old[i], n));
        assert(decreases_to!(old => old[i]));
        assert(decreases_to!(old[i] => f.children@));
        lemma_pruned_ids(f.children@, g.children@, id, path, n);
        assert(entry_ids_below(new[i], n));
        assert forall|k: int| 0 <= k < new.len() implies entry_ids_below(#[trigger] new[k], n) by {
            if k != i {
                assert(new[k] == old[k]);
            }
        }
    }
}

proof fn lemma_added_ids(old: Collection, new: Collection, parent: Option<FolderId>, e: Entry)
    requires
        added(old, new, parent, e),
        ids_below(old.children@, new.next_id),
        entry_ids_below(e, new.next_id),
    ensures
        ids_below(new.children@, new.next_id),
{
    match parent {
        None => {
            assert forall|k: int| 0 <= k < new.children@.len() implies entry_ids_below(#[trigger] new.children@[k], new.next_id) by {
                if k < old.children@.len() {
                    assert(new.children@[k] == old.children@[k]);
                }
            }
        },
        Some(p) => lemma_placed_ids(old.children@, new.children@, p, e, new.next_id),
    }
}

/// A named environment: its variables.
#[derive(Debug, Clone)]
pub struct Environment {
    pub name: String,
    pub variables: Vec<KeyValue>,
}

impl Environment {
    /// A copy with the same name and variables.
    pub fn duplicate(&self) -> (r: Environment)
        ensures
            r.name == self.name,
            crate::request::kv_models(r.variables@) == crate::request::kv_models(self.variables@),
    {
        Environment { name: self.name.clone(), variables: crate::request::copy_key_values(&self.variables) }
    }
}

/// The active environment of the collection that `r` names, if any.
pub open spec fn active_env_of(cols: Map<u64, Collection>, r: Option<CollectionRequest>) -> Option<Environment> {
    match r {
        Some(cr) => if cols.dom().contains(cr.0.id()) {
            let c = cols[cr.0.id()];
            match c.active_environment {
                Some(i) => if i < c.environments@.len() {
                    Some(c.environments@[i as int])
                } else {
                    None
                },
                None => None,
            }
        } else {
            None
        },
        None => None,
    }
}

/// A collection: its tree of folders and requests rooted at `path`, its
/// environments and the active one, whether it holds changes not yet
/// written, and the next id to hand out to a new folder or request.
#[derive(Debug)]
pub struct Collection {
    pub name: String,
    pub path: PathBuf,
    pub children: Vec<Entry>,
    pub environments: Vec<Environment>,
    pub active_environment: Option<usize>,
    pub dirty: bool,
    pub next_id: u64,
}

/// `e` is a new, empty folder entry.
pub open spec fn new_folder(e: Entry, id: FolderId, name: String, path: PathBuf) -> bool {
    &&& e is Folder
    &&& e->Folder_0.id == id
    &&& e->Folder_0.name == name
    &&& e->Folder_0.path == path
    &&& e->Folder_0.children@.len() == 0
}

/// The fields other than the tree, the id counter and the dirty flag agree.
pub open spec fn same_settings(a: Collection, b: Collection) -> bool {
    &&& a.name == b.name
    &&& a.path == b.path
    &&& a.environments == b.environments
    &&& a.active_environment == b.active_environment
}

/// Whether `base` is the directory a new entry under `parent` goes in: the
/// collection's root, or the path of a folder with id `parent` in its tree.
pub open spec fn parent_dir(c: Collection, parent: Option<FolderId>, base: PathBuf) -> bool {
    match parent {
        None => base == c.path,
        Some(p) => exists|f: Folder| f.id == p && #[trigger] within(c.children@, f) && base == f.path,
    }
}

/// `new` is `old` with entry `e` added at the end of the root (no parent)
/// or of the children of folder `parent`.
pub open spec fn added(old: Collection, new: Collection, parent: Option<FolderId>, e: Entry) -> bool {
    match parent {
        None => new.children@ == old.children@.push(e),
        Some(p) => placed(old.children@, new.children@, p, e),
    }
}

/// Whether a new entry can go under `parent`: the collection has ids left
/// and the parent, if any, is a folder in its tree.
pub open spec fn can_add(c: Collection, parent: Option<FolderId>) -> bool {
    &&& c.next_id < u64::MAX
    &&& match parent {
        None => true,
        Some(p) => holds_folder(c.children@, p),
    }
}

/// `new` is `old` with an empty folder `id` named `name` at `path` added at
/// the end of the root or of the children of folder `parent`.
pub open spec fn folder_added(old: Collection, new: Collection, parent: Option<FolderId>, id: FolderId, name: String, path: PathBuf) -> bool {
    exists|e: Entry| #[trigger] new_folder(e, id, name, path) && added(old, new, parent, e)
}

impl Collection {
    /// Every id in the tree is below the next id to hand out, so each new
    /// id differs from all ids already in the tree.
    pub open spec fn wf(&self) -> bool {
        ids_below(self.children@, self.next_id)
    }

    /// An empty, clean collection rooted at `path`.
    pub fn new(name: String, path: PathBuf) -> (r: Collection)
        ensures
            r.name == name,
            r.path == path,
            r.children@.len() == 0,
            r.environments@.len() == 0,
            r.active_environment.is_none(),
            !r.dirty,
            r.next_id == 0,
            r.wf(),
    {
        Collection {
            name,
            path,
            children: Vec::new(),
            environments: Vec::new(),
            active_environment: None,
            dirty: false,
            next_id: 0,
        }
    }

    /// The directory a new entry under `parent` goes in.
    fn parent_path(&self, parent: Option<FolderId>) -> (r: Option<&PathBuf>)
        ensures
            r.is_some() == (parent.is_none() || holds_folder(self.children@, parent.unwrap())),
            r.is_some() ==> parent_dir(*self, parent, *r.unwrap()),
    {
        match parent {
            None => Some(&self.path),
            Some(p) => match find_folder(&self.children, p) {
                Some(f) => {
                    assert(within(self.children@, *f));
                    Some(&f.path)
                },
                None => None,
            },
        }
    }

    fn add_entry(&mut self, parent: Option<FolderId>, e: Entry)
        requires
            parent.is_some() ==> holds_folder(old(self).children@, parent.unwrap()),
        ensures
            added(*old(self), *final(self), parent, e),
            same_settings(*old(self), *final(self)),
            final(self).next_id == old(self).next_id,
            final(self).dirty,
    {
        match parent {
            None => self.children.push(e),
            Some(p) => place(&mut self.children, p, e),
        }
        self.dirty = true;
    }

    /// Adds an empty folder named `name` at the end of the root or of the
    /// children of folder `parent`, and returns the directory to create for
    /// it. Returns `None`, changing nothing, when the parent is not a folder
    /// of this collection or no id is left.
    pub fn add_folder(&mut self, name: String, parent: Option<FolderId>) -> (r: Option<PathBuf>)
        ensures
            r.is_some() == can_add(*old(self), parent),
            r.is_none() ==> *final(self) == *old(self),
            r.is_some() ==> folder_added(*old(self), *final(self), parent, FolderId(old(self).next_id), name, r.unwrap()),
            r.is_some() ==> exists|base: PathBuf| #[trigger] parent_dir(*old(self), parent, base) && r.unwrap() == path_join(base, name@),
            r.is_some() ==> same_settings(*old(self), *final(self)) && final(self).dirty && final(self).next_id
                == old(self).next_id + 1,
            old(self).wf() ==> final(self).wf(),
            old(self).wf() && r.is_some() ==> !holds_folder(old(self).children@, FolderId(old(self).next_id)),
    {
        if self.next_id == u64::MAX {
            return None;
        }
        let base_ref = match self.parent_path(parent) {
            Some(b) => b,
            None => {
                return None;
            },
        };
        let ghost base = *base_ref;
        let path = join(base_ref, name.as_str());
        let id = FolderId(self.next_id);
        let ghost gname = name;
        let ghost mid = *self;
        self.next_id = self.next_id + 1;
        let e = Entry::Folder(Folder { id, name, path: path.clone(), children: Vec::new() });
        let ghost ge = e;
        self.add_entry(parent, e);
        proof {
            assert(mid.children == old(self).children);
            assert(added(*old(self), *self, parent, ge));
            assert(new_folder(ge, id, gname, path));
            assert(parent_dir(*old(self), parent, base));
            assert(path == path_join(base, gname@));
            assert(id == FolderId(old(self).next_id));
            assert(folder_added(*old(self), *self, parent, id, gname, path));
            if old(self).wf() {
                lemma_fresh_id(old(self).children@, old(self).next_id);
                lemma_ids_grow(old(self).children@, old(self).next_id, self.next_id);
                assert(entry_ids_below(ge, self.next_id));
                lemma_added_ids(*old(self), *self, parent, ge);
            }
        }
        Some(path)
    }

    /// Adds a request named `name`, persisted as `<name>.toml`, at the end
    /// of the root or of the children of folder `parent`; returns its id and
    /// file path. Returns `None`, changing nothing, when the parent is not a
    /// folder of this collection or no id is left.
    pub fn add_request(&mut self, name: String, parent: Option<FolderId>) -> (r: Option<(RequestId, PathBuf)>)
        ensures
            r.is_some() == can_add(*old(self), parent),
            r.is_none() ==> *final(self) == *old(self),
            r.is_some() ==> r.unwrap().0 == RequestId(old(self).next_id) && exists|base: PathBuf|
                #[trigger] parent_dir(*old(self), parent, base) && r.unwrap().1 == path_join(base, name@ + ".toml"@)
                    && added(
                    *old(self),
                    *final(self),
                    parent,
                    Entry::Item(RequestRef { name, id: r.unwrap().0, path: r.unwrap().1 }),
                ),
            r.is_some() ==> same_settings(*old(self), *final(self)) && final(self).dirty && final(self).next_id
                == old(self).next_id + 1,
            old(self).wf() ==> final(self).wf(),
            old(self).wf() && r.is_some() ==> !holds_request(old(self).children@, RequestId(old(self).next_id)),
    {
        if self.next_id == u64::MAX {
            return None;
        }
        let mut file = name.clone();
        file.append(".toml");
        let base_ref = match self.parent_path(parent) {
            Some(b) => b,
            None => {
                return None;
            },
        };
        let ghost base = *base_ref;
        let path = join(base_ref, file.as_str());
        let ghost mid = *self;
        let id = RequestId(self.next_id);
        self.next_id = self.next_id + 1;
        let e = Entry::Item(RequestRef { name, id, path: path.clone() });
        let ghost ge = e;
        self.add_entry(parent, e);
        proof {
            assert(parent_dir(*old(self), parent, base));
            if old(self).wf() {
                lemma_fresh_id(old(self).children@, old(self).next_id);
                lemma_ids_grow(old(self).children@, old(self).next_id, self.next_id);
                assert(entry_ids_below(ge, self.next_id));
                lemma_added_ids(*old(self), *self, parent, ge);
            }
        }
        Some((id, path))
    }

    /// Removes folder `id` and its subtree from the tree, and returns the
    /// directory to remove recursively. Returns `None`, changing nothing,
    /// when the folder is not in this collection.
    pub fn delete_folder(&mut self, id: FolderId) -> (r: Option<PathBuf>)
        ensures
            r.is_some() == holds_folder(old(self).children@, id),
            r.is_none() ==> *final(self) == *old(self),
            r.is_some() ==> pruned(old(self).children@, final(self).children@, id, r.unwrap()) && same_settings(
                *old(self),
                *final(self),
            ) && final(self).dirty && final(self).next_id == old(self).next_id,
            old(self).wf() ==> final(self).wf(),
    {
        if !holds_folder_exec(&self.children, id) {
            return None;
        }
        let r = prune(&mut self.children, id);
        self.dirty = true;
        proof {
            if old(self).wf() {
                lemma_pruned_ids(old(self).children@, self.children@, id, r.unwrap(), self.next_id);
            }
        }
        r
    }

    /// The request with id `id` in this collection's tree, if any.
    pub fn get_ref(&self, id: RequestId) -> (r: Option<&RequestRef>)
        ensures
            r.is_some() ==> r.unwrap().id == id && has_request(self.children@, *r.unwrap()),
            r.is_none() ==> !holds_request(self.children@, id),
    {
        find_request(&self.children, id)
    }

    /// The active environment, if one is set and exists.
    pub fn active_env(&self) -> (r: Option<&Environment>)
        ensures
            r.is_some() == (self.active_environment.is_some() && self.active_environment.unwrap() < self.environments@.len()),
            r.is_some() ==> *r.unwrap() == self.environments@[self.active_environment.unwrap() as int],
    {
        match self.active_environment {
            Some(i) => {
                if i < self.environments.len() {
                    Some(&self.environments[i])
                } else {
                    None
                }
            },
            None => None,
        }
    }
}

/// `x` is among the first `n` entries of `ids`.
pub open spec fn listed(ids: Seq<u64>, n: int, x: u64) -> bool {
    exists|j: int| 0 <= j < n && #[trigger] ids[j] == x
}

/// The arena of collections: slotmap's `SlotMap`, whose contents are named
/// by `collection_slots`.
#[verifier::external_body]
#[derive(Debug)]
pub struct CollectionArena {
    slots: slotmap::SlotMap<slotmap::DefaultKey, Collection>,
}

/// The collections, by arena identity.
pub uninterp spec fn collection_slots(a: CollectionArena) -> Map<u64, Collection>;

impl CollectionArena {
    /// Relies on `SlotMap::new`: an empty arena.
    #[verifier::external_body]
    fn new() -> (r: CollectionArena)
        ensures
            collection_slots(r).dom().is_empty(),
    {
        CollectionArena { slots: slotmap::SlotMap::new() }
    }

    /// Relies on `SlotMap::insert`, which panics only when no slot is free
    /// and `u32::MAX` slots exist: the key of a slot that was free, in its
    /// 64-bit form (`KeyData::as_ffi`), whose version is odd.
    #[verifier::external_body]
    fn insert(&mut self, c: Collection) -> (r: u64)
        requires
            collection_slots(*old(self)).dom().len() + 1 < u32::MAX,
        ensures
            norm(r) == r,
            !collection_slots(*old(self)).dom().contains(r),
            collection_slots(*final(self)) == collection_slots(*old(self)).insert(r, c),
    {
        self.slots.insert(c).data().as_ffi()
    }

    /// Relies on `SlotMap::remove` with the key rebuilt by
    /// `KeyData::from_ffi`, which gives the key whose 64-bit form is `norm(id)`.
    #[verifier::external_body]
    fn remove(&mut self, id: u64) -> (r: Option<Collection>)
        ensures
            r.is_some() == collection_slots(*old(self)).dom().contains(norm(id)),
            r.is_some() ==> r.unwrap() == collection_slots(*old(self))[norm(id)],
            collection_slots(*final(self)) == collection_slots(*old(self)).remove(norm(id)),
    {
        self.slots.remove(slotmap::KeyData::from_ffi(id).into())
    }

    /// Relies on `SlotMap::get`, key rebuilt as in `remove`.
    #[verifier::external_body]
    fn get(&self, id: u64) -> (r: Option<&Collection>)
        ensures
            r.is_some() == collection_slots(*self).dom().contains(norm(id)),
            r.is_some() ==> *r.unwrap() == collection_slots(*self)[norm(id)],
    {
        self.slots.get(slotmap::KeyData::from_ffi(id).into())
    }

    /// Relies on `SlotMap::get_mut`, key rebuilt as in `remove`.
    #[verifier::external_body]
    fn get_mut(&mut self, id: u64) -> (r: Option<&mut Collection>)
        ensures
            r.is_some() == collection_slots(*old(self)).dom().contains(norm(id)),
            r.is_none() ==> collection_slots(*final(self)) == collection_slots(*old(self)),
            r.is_some() ==> *r.unwrap() == collection_slots(*old(self))[norm(id)] && collection_slots(*final(self))
                == collection_slots(*old(self)).insert(norm(id), *final(r.unwrap())),
    {
        self.slots.get_mut(slotmap::KeyData::from_ffi(id).into())
    }

    /// Relies on `SlotMap::keys`: each live key once, in its 64-bit form, walking
    /// the slots by increasing index.
    #[verifier::external_body]
    fn keys(&self) -> (r: Vec<u64>)
        ensures
            r@.no_duplicates(),
            forall|i: int, j: int| 0 <= i < j < r.len() ==> slot_index(r@[i]) < slot_index(r@[j]),
            r@.to_set() == collection_slots(*self).dom(),
    {
        self.slots.keys().map(|k| k.data().as_ffi()).collect()
    }
}

/// The collection store.
#[derive(Debug)]
pub struct Collections {
    pub entries: CollectionArena,
}

impl Collections {
    pub open spec fn view(&self) -> Map<u64, Collection> {
        collection_slots(self.entries)
    }

    /// Identities are in the arena's form, and finitely many; in every
    /// collection, each id is below the next one to hand out.
    pub open spec fn wf(&self) -> bool {
        &&& self.view().dom().finite()
        &&& forall|id: u64| #[trigger] self.view().dom().contains(id) ==> norm(id) == id
        &&& forall|id: u64| #[trigger] self.view().dom().contains(id) ==> self.view()[id].wf()
    }

    /// No collections.
    pub fn new() -> (r: Collections)
        ensures
            r.wf(),
            r.view().dom().is_empty(),
    {
        Collections { entries: CollectionArena::new() }
    }

    /// Registers collection `c`; returns its handle.
    pub fn insert(&mut self, c: Collection) -> (r: CollectionKey)
        requires
            old(self).wf(),
            c.wf(),
            old(self).view().dom().len() + 1 < u32::MAX,
        ensures
            final(self).wf(),
            !old(self).view().dom().contains(r.id()),
            final(self).view() == old(self).view().insert(r.id(), c),
    {
        let id = self.entries.insert(c);
        let key = CollectionKey::from_bits(id);
        proof {
            assert forall|x: u64| #[trigger] self.view().dom().contains(x) implies norm(x) == x by {
                if x != id {
                    assert(old(self).view().dom().contains(x));
                }
            }
            assert forall|x: u64| #[trigger] self.view().dom().contains(x) implies self.view()[x].wf() by {
                if x != id {
                    assert(old(self).view().dom().contains(x));
                }
            }
        }
        key
    }

    /// Registers a new, empty collection rooted at `path`; nothing is
    /// written to disk.
    pub fn create_collection(&mut self, name: String, path: PathBuf) -> (r: CollectionKey)
        requires
            old(self).wf(),
            old(self).view().dom().len() + 1 < u32::MAX,
        ensures
            final(self).wf(),
            !old(self).view().dom().contains(r.id()),
            final(self).view().dom() == old(self).view().dom().insert(r.id()),
            forall|id: u64| #[trigger] old(self).view().dom().contains(id) ==> final(self).view()[id] == old(self).view()[id],
            final(self).view()[r.id()].name == name,
            final(self).view()[r.id()].path == path,
            final(self).view()[r.id()].children@.len() == 0,
            final(self).view()[r.id()].environments@.len() == 0,
            !final(self).view()[r.id()].dirty,
            final(self).view()[r.id()].wf(),
    {
        let key = self.insert(Collection::new(name, path));
        proof {
            assert(self.view().dom() =~= old(self).view().dom().insert(key.id()));
        }
        key
    }

    /// Registers every collection of `cols`, in order; returns their handles.
    pub fn insert_all(&mut self, cols: Vec<Collection>) -> (r: Vec<CollectionKey>)
        requires
            old(self).wf(),
            forall|i: int| 0 <= i < cols.len() ==> (#[trigger] cols@[i]).wf(),
            old(self).view().dom().len() + cols.len() + 1 < u32::MAX,
        ensures
            final(self).wf(),
            r.len() == cols.len(),
            forall|i: int| 0 <= i < r.len() ==> #[trigger] final(self).view().dom().contains(r@[i].id()),
            forall|i: int| 0 <= i < r.len() ==> final(self).view()[(#[trigger] r@[i]).id()] == cols@[i],
            forall|id: u64| #[trigger] old(self).view().dom().contains(id) ==> final(self).view().dom().contains(id)
                && final(self).view()[id] == old(self).view()[id],
            forall|i: int| 0 <= i < r.len() ==> !old(self).view().dom().contains((#[trigger] r@[i]).id()),
            forall|id: u64| #[trigger] final(self).view().dom().contains(id) ==> old(self).view().dom().contains(id) || exists|i: int|
                0 <= i < r.len() && (#[trigger] r@[i]).id() == id,
            final(self).view().dom().len() == old(self).view().dom().len() + cols.len(),
    {
        let mut keys: Vec<CollectionKey> = Vec::new();
        let mut cols = cols;
        let ghost n = cols.len();
        let ghost all = cols@;
        while cols.len() > 0
            invariant
                self.wf(),
                keys.len() + cols.len() == n,
                all.len() == n,
                cols@ == all.subrange(keys.len() as int, n as int),
                forall|i: int| 0 <= i < keys.len() ==> self.view()[(#[trigger] keys@[i]).id()] == all[i],
                forall|i: int, j: int| 0 <= i < j < keys.len() ==> keys@[i].id() != keys@[j].id(),
                self.view().dom().len() == old(self).view().dom().len() + keys.len(),
                old(self).view().dom().len() + n + 1 < u32::MAX,
                forall|i: int| 0 <= i < keys.len() ==> #[trigger] self.view().dom().contains(keys@[i].id()),
                forall|id: u64| #[trigger] old(self).view().dom().contains(id) ==> self.view().dom().contains(id)
                    && self.view()[id] == old(self).view()[id],
                forall|i: int| 0 <= i < keys.len() ==> !old(self).view().dom().contains((#[trigger] keys@[i]).id()),
                forall|id: u64| #[trigger] self.view().dom().contains(id) ==> old(self).view().dom().contains(id) || exists|i: int|
                    0 <= i < keys.len() && (#[trigger] keys@[i]).id() == id,
                forall|i: int| 0 <= i < cols.len() ==> (#[trigger] cols@[i]).wf(),
            decreases cols.len(),
        {
            let ghost old_cols = cols@;
            proof {
                assert(old_cols[0] == cols@[0]);
            }
            let c = cols.remove(0);
            let ghost before = self.view();
            let ghost keys0 = keys@;
            let k = self.insert(c);
            keys.push(k);
            proof {
                assert(self.view().dom() =~= before.dom().insert(k.id()));
                assert(c == all[keys0.len() as int]);
                assert(cols@ =~= old_cols.drop_first());
                assert forall|i: int| 0 <= i < cols.len() implies (#[trigger] cols@[i]).wf() by {
                    assert(cols@[i] == old_cols[i + 1]);
                }
                assert forall|x: u64| #[trigger] self.view().dom().contains(x) implies old(self).view().dom().contains(x) || exists|i: int|
                    0 <= i < keys.len() && (#[trigger] keys@[i]).id() == x by {
                    if x == k.id() {
                        assert(keys@[keys.len() - 1].id() == x);
                    } else {
                        assert(before.dom().contains(x));
                        if !old(self).view().dom().contains(x) {
                            let i = choose|i: int| 0 <= i < keys0.len() && (#[trigger] keys0[i]).id() == x;
                            assert(keys@[i] == keys0[i]);
                        }
                    }
                }
                assert forall|i: int| 0 <= i < keys.len() implies !old(self).view().dom().contains((#[trigger] keys@[i]).id()) by {
                    if i < keys0.len() {
                        assert(keys@[i] == keys0[i]);
                    }
                }
                assert(cols@ =~= all.subrange(keys.len() as int, n as int));
                assert forall|i: int| 0 <= i < keys.len() implies self.view()[(#[trigger] keys@[i]).id()] == all[i] by {
                    if i < keys0.len() {
                        assert(keys@[i] == keys0[i]);
                        assert(before.dom().contains(keys0[i].id()));
                    }
                }
                assert forall|a: int, b: int| 0 <= a < b < keys.len() implies keys@[a].id() != keys@[b].id() by {
                    if b == keys.len() - 1 {
                        assert(before.dom().contains(keys0[a].id()));
                    } else {
                        assert(keys@[a] == keys0[a] && keys@[b] == keys0[b]);
                    }
                }
                assert forall|i: int| 0 <= i < keys.len() implies #[trigger] self.view().dom().contains(keys@[i].id()) by {
                    if i < keys.len() - 1 {
                        assert(before.dom().contains(keys@[i].id()));
                    }
                }
            }
        }
        keys
    }

    /// The handles of all collections, in the arena's order.
    pub fn keys(&self) -> (r: Vec<CollectionKey>)
        requires
            self.wf(),
        ensures
            forall|i: int| 0 <= i < r.len() ==> #[trigger] self.view().dom().contains(r@[i].id()),
            forall|id: u64| #[trigger] self.view().dom().contains(id) ==> exists|i: int| 0 <= i < r.len() && (#[trigger] r@[i]).id() == id,
            forall|i: int, j: int| 0 <= i < j < r.len() ==> slot_index((#[trigger] r@[i]).id()) < slot_index((#[trigger] r@[j]).id()),
    {
        let ids = self.entries.keys();
        let mut out: Vec<CollectionKey> = Vec::new();
        let mut i: usize = 0;
        while i < ids.len()
            invariant
                0 <= i <= ids.len(),
                self.wf(),
                ids@.to_set() == self.view().dom(),
                out.len() == i,
                forall|a: int, b: int| 0 <= a < b < ids.len() ==> slot_index(ids@[a]) < slot_index(ids@[b]),
                forall|k: int| 0 <= k < i ==> (#[trigger] out@[k]).id() == ids@[k],
            decreases ids.len() - i,
        {
            let id = ids[i];
            proof {
                assert(ids@[i as int] == id);
                assert(ids@.contains(id));
                assert(self.view().dom().contains(id));
            }
            out.push(CollectionKey::from_bits(id));
            i = i + 1;
        }
        proof {
            assert forall|k: int| 0 <= k < out.len() implies #[trigger] self.view().dom().contains(out@[k].id()) by {
                assert(ids@.contains(ids@[k]));
            }
            assert forall|id: u64| #[trigger] self.view().dom().contains(id) implies exists|k: int| 0 <= k < out.len() && (#[trigger] out@[k]).id() == id by {
                assert(ids@.to_set().contains(id));
                let k = choose|k: int| 0 <= k < ids.len() && ids@[k] == id;
                assert(out@[k].id() == id);
            }
        }
        out
    }

    /// The collection of handle `key`, if registered.
    pub fn get(&self, key: CollectionKey) -> (r: Option<&Collection>)
        ensures
            r.is_some() == self.view().dom().contains(key.id()),
            r.is_some() ==> *r.unwrap() == self.view()[key.id()],
    {
        let id = key.id_exec();
        proof {
            lemma_norm_idempotent(key.bits_spec());
        }
        self.entries.get(id)
    }

    /// The collection of handle `key`, if registered, to edit in place.
    pub fn get_mut(&mut self, key: CollectionKey) -> (r: Option<&mut Collection>)
        ensures
            r.is_some() == old(self).view().dom().contains(key.id()),
            r.is_none() ==> final(self).view() == old(self).view(),
            r.is_some() ==> *r.unwrap() == old(self).view()[key.id()] && final(self).view() == old(self).view().insert(
                key.id(),
                *final(r.unwrap()),
            ),
    {
        let id = key.id_exec();
        proof {
            lemma_norm_idempotent(key.bits_spec());
        }
        self.entries.get_mut(id)
    }

    /// Unregisters the collection of handle `key` and returns it. Open tabs
    /// may still name it: their lookups then find nothing.
    pub fn remove(&mut self, key: CollectionKey) -> (r: Option<Collection>)
        requires
            old(self).wf(),
        ensures
            final(self).wf(),
            r.is_some() == old(self).view().dom().contains(key.id()),
            r.is_some() ==> r.unwrap() == old(self).view()[key.id()],
            final(self).view() == old(self).view().remove(key.id()),
    {
        let id = key.id_exec();
        proof {
            lemma_norm_idempotent(key.bits_spec());
        }
        self.entries.remove(id)
    }

    /// Adds an empty folder named `name` under `parent` (or at the root) of
    /// collection `col`; returns the directory to create. `None`, with
    /// nothing changed, when the collection or the parent does not exist or
    /// the collection has no id left.
    pub fn create_folder_in(&mut self, name: String, col: CollectionKey, parent: Option<FolderId>) -> (r: Option<PathBuf>)
        requires
            old(self).wf(),
        ensures
            final(self).wf(),
            r.is_some() == (old(self).view().dom().contains(col.id()) && can_add(old(self).view()[col.id()], parent)),
            r.is_none() ==> final(self).view() == old(self).view(),
            r.is_some() ==> ({
                let o = old(self).view()[col.id()];
                let n = final(self).view()[col.id()];
                &&& final(self).view() == old(self).view().insert(col.id(), n)
                &&& folder_added(o, n, parent, FolderId(o.next_id), name, r.unwrap())
                &&& exists|base: PathBuf| #[trigger] parent_dir(o, parent, base) && r.unwrap() == path_join(base, name@)
                &&& same_settings(o, n) && n.dirty && n.next_id == o.next_id + 1
                &&& n.wf() && !holds_folder(o.children@, FolderId(o.next_id))
            }),
    {
        match self.get_mut(col) {
            Some(c) => {
                let r = c.add_folder(name, parent);
                proof {
                    assert(self.view().dom() =~= old(self).view().dom());
                }
                r
            },
            None => None,
        }
    }

    /// Adds a request named `name` under `parent` (or at the root) of
    /// collection `col`; returns its reference and file path. `None`, with
    /// nothing changed, when the collection or the parent does not exist or
    /// the collection has no id left.
    pub fn add_request(&mut self, name: String, col: CollectionKey, parent: Option<FolderId>) -> (r: Option<(CollectionRequest, PathBuf)>)
        requires
            old(self).wf(),
        ensures
            final(self).wf(),
            r.is_some() == (old(self).view().dom().contains(col.id()) && can_add(old(self).view()[col.id()], parent)),
            r.is_none() ==> final(self).view() == old(self).view(),
            r.is_some() ==> ({
                let o = old(self).view()[col.id()];
                let n = final(self).view()[col.id()];
                let (cr, path) = r.unwrap();
                &&& cr == CollectionRequest(col, RequestId(o.next_id))
                &&& final(self).view() == old(self).view().insert(col.id(), n)
                &&& exists|base: PathBuf| #[trigger] parent_dir(o, parent, base) && path == path_join(base, name@ + ".toml"@)
                &&& added(o, n, parent, Entry::Item(RequestRef { name, id: cr.1, path }))
                &&& same_settings(o, n) && n.dirty && n.next_id == o.next_id + 1
                &&& n.wf() && !holds_request(o.children@, cr.1)
            }),
    {
        match self.get_mut(col) {
            Some(c) => {
                let r = c.add_request(name, parent);
                proof {
                    assert(self.view().dom() =~= old(self).view().dom());
                }
                match r {
                    Some((id, path)) => Some((CollectionRequest(col, id), path)),
                    None => None,
                }
            },
            None => None,
        }
    }

    /// Removes folder `folder` and its subtree from collection `col`;
    /// returns the directory to remove recursively. `None`, with nothing
    /// changed, when the collection or the folder does not exist.
    pub fn delete_folder(&mut self, col: CollectionKey, folder: FolderId) -> (r: Option<PathBuf>)
        requires
            old(self).wf(),
        ensures
            final(self).wf(),
            r.is_some() == (old(self).view().dom().contains(col.id()) && holds_folder(old(self).view()[col.id()].children@, folder)),
            r.is_none() ==> final(self).view() == old(self).view(),
            r.is_some() ==> ({
                let o = old(self).view()[col.id()];
                let n = final(self).view()[col.id()];
                &&& final(self).view() == old(self).view().insert(col.id(), n)
                &&& pruned(o.children@, n.children@, folder, r.unwrap())
                &&& same_settings(o, n) && n.dirty && n.next_id == o.next_id
                &&& n.wf()
            }),
    {
        match self.get_mut(col) {
            Some(c) => {
                let r = c.delete_folder(folder);
                proof {
                    assert(self.view().dom() =~= old(self).view().dom());
                }
                r
            },
            None => None,
        }
    }

    /// The reference of persisted request `req`, if its collection is
    /// registered and holds it. A stale reference finds nothing.
    pub fn get_ref(&self, req: CollectionRequest) -> (r: Option<&RequestRef>)
        ensures
            r.is_some() ==> self.view().dom().contains(req.0.id()) && r.unwrap().id == req.1 && has_request(
                self.view()[req.0.id()].children@,
                *r.unwrap(),
            ),
            r.is_none() ==> !self.view().dom().contains(req.0.id()) || !holds_request(self.view()[req.0.id()].children@, req.1),
    {
        match self.get(req.0) {
            Some(c) => c.get_ref(req.1),
            None => None,
        }
    }

    /// The active environment of collection `col`, if any.
    pub fn get_active_env(&self, col: CollectionKey) -> (r: Option<&Environment>)
        ensures
            r.is_some() == (self.view().dom().contains(col.id()) && ({
                let c = self.view()[col.id()];
                c.active_environment.is_some() && c.active_environment.unwrap() < c.environments@.len()
            })),
            r.is_some() ==> ({
                let c = self.view()[col.id()];
                *r.unwrap() == c.environments@[c.active_environment.unwrap() as int]
            }),
    {
        match self.get(col) {
            Some(c) => c.active_env(),
            None => None,
        }
    }

    /// The handles of the collections with changes not yet written.
    pub fn get_collections_for_save(&self) -> (r: Vec<CollectionKey>)
        requires
            self.wf(),
        ensures
            r@.map_values(|k: CollectionKey| k.id()).no_duplicates(),
            forall|id: u64|
                (exists|i: int| 0 <= i < r.len() && #[trigger] r@[i].id() == id) <==> (self.view().dom().contains(id)
                    && self.view()[id].dirty),
    {
        let ids = self.entries.keys();
        let mut out: Vec<CollectionKey> = Vec::new();
        let mut i: usize = 0;
        while i < ids.len()
            invariant
                0 <= i <= ids.len(),
                self.wf(),
                ids@.no_duplicates(),
                ids@.to_set() == self.view().dom(),
                out@.map_values(|k: CollectionKey| k.id()).no_duplicates(),
                forall|k: int| 0 <= k < out.len() ==> listed(ids@, i as int, (#[trigger] out@[k]).id()),
                forall|id: u64|
                    (exists|k: int| 0 <= k < out.len() && #[trigger] out@[k].id() == id) <==> (exists|j: int|
                        0 <= j < i && ids@[j] == id && #[trigger] self.view()[id].dirty),
            decreases ids.len() - i,
        {
            let id = ids[i];
            proof {
                assert(ids@.contains(id));
                assert(self.view().dom().contains(id));
            }
            let dirty = match self.entries.get(id) {
                Some(c) => c.dirty,
                None => false,
            };
            if dirty {
                let ghost before = out@;
                let k = CollectionKey::from_bits(id);
                out.push(k);
                proof {
                    assert(k.id() == id);
                    let m = out@.map_values(|k: CollectionKey| k.id());
                    let mb = before.map_values(|k: CollectionKey| k.id());
                    assert(m == mb.push(id));
                    assert forall|a: int, b: int| 0 <= a < m.len() && 0 <= b < m.len() && a != b implies m[a] != m[b] by {
                        if a < mb.len() && b < mb.len() {
                            assert(m[a] == mb[a] && m[b] == mb[b]);
                        } else if a < mb.len() {
                            assert(out@[a] == before[a]);
                            let j = choose|j: int| 0 <= j < i && #[trigger] ids@[j] == before[a].id();
                            assert(ids@[j] != ids@[i as int]);
                        } else {
                            assert(out@[b] == before[b]);
                            let j = choose|j: int| 0 <= j < i && #[trigger] ids@[j] == before[b].id();
                            assert(ids@[j] != ids@[i as int]);
                        }
                    }
                    assert forall|k2: int| 0 <= k2 < out.len() implies listed(ids@, i + 1, (#[trigger] out@[k2]).id()) by {
                        if k2 < before.len() {
                            assert(out@[k2] == before[k2]);
                            assert(listed(ids@, i as int, before[k2].id()));
                            let j = choose|j: int| 0 <= j < i && #[trigger] ids@[j] == before[k2].id();
                        } else {
                            assert(ids@[i as int] == out@[k2].id());
                        }
                    }
                    assert forall|x: u64| (exists|k2: int| 0 <= k2 < out.len() && #[trigger] out@[k2].id() == x) <==> (exists|j: int|
                        0 <= j < i + 1 && ids@[j] == x && #[trigger] self.view()[x].dirty) by {
                        if exists|k2: int| 0 <= k2 < out.len() && #[trigger] out@[k2].id() == x {
                            let k2 = choose|k2: int| 0 <= k2 < out.len() && #[trigger] out@[k2].id() == x;
                            if k2 < before.len() {
                                assert(out@[k2] == before[k2]);
                            } else {
                                assert(ids@[i as int] == x);
                            }
                        }
                        if exists|j: int| 0 <= j < i + 1 && ids@[j] == x && #[trigger] self.view()[x].dirty {
                            let j = choose|j: int| 0 <= j < i + 1 && ids@[j] == x && #[trigger] self.view()[x].dirty;
                            if j < i {
                                let k2 = choose|k2: int| 0 <= k2 < before.len() && #[trigger] before[k2].id() == x;
                                assert(out@[k2] == before[k2]);
                            } else {
                                assert(out@[before.len() as int].id() == x);
                            }
                        }
                    }
                }
            } else {
                proof {
                    assert forall|x: u64| (exists|k2: int| 0 <= k2 < out.len() && #[trigger] out@[k2].id() == x) <==> (exists|j: int|
                        0 <= j < i + 1 && ids@[j] == x && #[trigger] self.view()[x].dirty) by {
                        if exists|j: int| 0 <= j < i + 1 && ids@[j] == x && #[trigger] self.view()[x].dirty {
                            let j = choose|j: int| 0 <= j < i + 1 && ids@[j] == x && #[trigger] self.view()[x].dirty;
                            assert(j < i);
                        }
                    }
                }
            }
            i = i + 1;
        }
        proof {
            assert forall|id: u64|
                (exists|i: int| 0 <= i < out.len() && #[trigger] out@[i].id() == id) <==> (self.view().dom().contains(id)
                    && self.view()[id].dirty) by {
                if self.view().dom().contains(id) && self.view()[id].dirty {
                    assert(ids@.to_set().contains(id));
                    let j = choose|j: int| 0 <= j < ids.len() && ids@[j] == id;
                    assert(ids@[j] == id && self.view()[id].dirty);
                }
                if exists|k: int| 0 <= k < out.len() && #[trigger] out@[k].id() == id {
                    let k = choose|k: int| 0 <= k < out.len() && #[trigger] out@[k].id() == id;
                    assert(listed(ids@, ids.len() as int, out@[k].id()));
                    let j = choose|j: int| 0 <= j < ids.len() && #[trigger] ids@[j] == out@[k].id();
                    assert(ids@.contains(id));
                }
            }
        }
        out
    }

    /// Whether any collection has changes not yet written.
    pub fn any_dirty(&self) -> (r: bool)
        requires
            self.wf(),
        ensures
            r == exists|id: u64| #[trigger] self.view().dom().contains(id) && self.view()[id].dirty,
    {
        let dirty = self.get_collections_for_save();
        proof {
            if exists|id: u64| #[trigger] self.view().dom().contains(id) && self.view()[id].dirty {
                let id = choose|id: u64| #[trigger] self.view().dom().contains(id) && self.view()[id].dirty;
                let k = choose|i: int| 0 <= i < dirty.len() && #[trigger] dirty@[i].id() == id;
            }
            if dirty.len() > 0 {
                assert(self.view().dom().contains(dirty@[0].id()) && self.view()[dirty@[0].id()].dirty);
            }
        }
        dirty.len() > 0
    }

    /// Clears the dirty flag of collection `col` after it was written.
    pub fn mark_saved(&mut self, col: CollectionKey)
        requires
            old(self).wf(),
        ensures
            final(self).wf(),
            final(self).view().dom() == old(self).view().dom(),
            forall|id: u64| #[trigger] old(self).view().dom().contains(id) && id != col.id() ==> final(self).view()[id] == old(self).view()[id],
            old(self).view().dom().contains(col.id()) ==> ({
                let o = old(self).view()[col.id()];
                let n = final(self).view()[col.id()];
                !n.dirty && n == Collection { dirty: false, ..o }
            }),
    {
        match self.get_mut(col) {
            Some(c) => {
                c.dirty = false;
            },
            None => {},
        }
        proof {
            assert(self.view().dom() =~= old(self).view().dom());
        }
    }
}

} // verus!
