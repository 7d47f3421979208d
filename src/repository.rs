//! The store shared between concurrent callers, behind a readers-writer lock.

use std::sync::Arc;
use vstd::prelude::*;
use crate::query::{ordered, sort_tasks, SortKey};
use crate::store::{find, has_id, opt_view, views, TaskStore};
use crate::task::{Priority, Task, TaskCreate, TaskUpdate};

verus! {

/// The shared store: each operation holds the lock for its whole duration.
#[verifier::external_body]
pub struct TaskRepository {
    inner: Arc<parking_lot::RwLock<TaskStore>>,
}

/// `r` is what `f` returns on some well-formed store.
pub open spec fn read_outcome<R, F: FnOnce(&TaskStore) -> R>(f: F, r: R) -> bool {
    exists|s: &TaskStore| s.wf() && #[trigger] call_ensures(f, (s,), r)
}

/// `r` is what `f` returns, beside the store to keep, on some well-formed store.
pub open spec fn write_outcome<R, F: FnOnce(TaskStore) -> (TaskStore, R)>(f: F, r: R) -> bool {
    exists|s: TaskStore, s2: TaskStore| s.wf() && #[trigger] call_ensures(f, (s,), (s2, r))
}

/// Relies on `parking_lot::RwLock::new` (inside an `Arc`): the lock holds `store`.
#[verifier::external_body]
fn share(store: TaskStore) -> (r: TaskRepository)
    requires
        store.wf(),
{
    TaskRepository { inner: Arc::new(parking_lot::RwLock::new(store)) }
}

/// Relies on `parking_lot::RwLock::read`: `f` runs on the stored value while
/// the shared lock is held. Every value stored is well formed, since only
/// `share` and `with_write` store values and both demand it. `f` must not
/// lock the same repository again; no caller in this crate does.
#[verifier::external_body]
fn with_read<R, F>(repo: &TaskRepository, f: F) -> (result: R)
    where
        F: FnOnce(&TaskStore) -> R,
    requires
        forall|s: &TaskStore| s.wf() ==> #[trigger] call_requires(f, (s,)),
    ensures
        read_outcome(f, result),
{
    let guard = repo.inner.read();
    f(&*guard)
}

/// Relies on `parking_lot::RwLock::write`: while the exclusive lock is held,
/// `f` takes the stored value (an empty store stands in for it meanwhile, which
/// no other caller can see) and hands back the one to store in its place.
/// `f` must not lock the same repository again; no caller in this crate does.
#[verifier::external_body]
fn with_write<R, F>(repo: &TaskRepository, f: F) -> (r: R)
    where
        F: FnOnce(TaskStore) -> (TaskStore, R),
    requires
        forall|s: TaskStore| s.wf() ==> #[trigger] call_requires(f, (s,)),
        forall|s: TaskStore, out: (TaskStore, R)| s.wf() && #[trigger] call_ensures(f, (s,), out) ==> out.0.wf(),
    ensures
        write_outcome(f, r),
{
    let mut guard = repo.inner.write();
    let (s2, r) = f(std::mem::take(&mut *guard));
    *guard = s2;
    r
}

impl Default for TaskStore {
    fn default() -> (r: TaskStore)
        ensures
            r.wf(),
            r@.len() == 0,
    {
        TaskStore::new()
    }
}

impl Default for TaskRepository {
    fn default() -> (r: TaskRepository) {
        TaskRepository::new()
    }
}

impl TaskRepository {
    /// A new, empty shared store.
    pub fn new() -> (r: TaskRepository) {
        share(TaskStore::new())
    }

    /// Number of tasks held.
    pub fn count(&self) -> (r: usize)
        ensures
            exists|s: &TaskStore| s.wf() && r == s@.len(),
    {
        with_read(self, |s: &TaskStore| -> (n: usize)
            ensures
                n == s@.len(),
            { s.count() })
    }

    /// Store `task`, replacing the task with the same identifier if there is one.
    pub fn insert(&self, task: Task)
        requires
            task@.wf(),
    {
        let ghost tv = task@;
        let ghost id = task.id;
        with_write(self, move |s: TaskStore| -> (out: (TaskStore, ()))
            requires
                s.wf(),
                task@.wf(),
                tv == task@,
                id == task.id,
            ensures
                out.0.wf(),
                has_id(s@, id) ==> out.0@ == s@.update(crate::store::index_of(s@, id), tv),
                !has_id(s@, id) ==> out.0@ == s@.push(tv),
            {
                let mut s = s;
                s.insert(task);
                (s, ())
            })
    }

    /// A copy of the task with identifier `id`, if any.
    pub fn get(&self, id: u128) -> (r: Option<Task>)
        ensures
            exists|s: &TaskStore| s.wf() && opt_view(r) == find(s@, id),
    {
        with_read(self, |s: &TaskStore| -> (t: Option<Task>)
            requires
                s.wf(),
            ensures
                opt_view(t) == find(s@, id),
            { s.get(id) })
    }

    /// Copies of all tasks, in insertion order.
    pub fn list(&self) -> (r: Vec<Task>)
        ensures
            exists|s: &TaskStore| s.wf() && views(r@) == s@,
            forall|i: int| 0 <= i < r@.len() ==> (#[trigger] views(r@)[i]).wf(),
    {
        let r = with_read(self, |s: &TaskStore| -> (v: Vec<Task>)
            requires
                s.wf(),
            ensures
                views(v@) == s@,
                forall|i: int| 0 <= i < v@.len() ==> (#[trigger] views(v@)[i]).wf(),
            {
                proof {
                    s.lemma_wf_tasks();
                }
                s.list()
            });
        r
    }

    /// Copies of all tasks ordered by creation time, ascending or descending.
    pub fn list_sorted_by_created_at(&self, descending: bool) -> (r: Vec<Task>)
        ensures
            exists|s: &TaskStore| s.wf() && views(r@) == ordered(s@, SortKey::CreatedAt, descending),
    {
        let all = self.list();
        let r = sort_tasks(all, SortKey::CreatedAt, descending);
        proof {
            let s = choose|s: &TaskStore| s.wf() && views(all@) == s@;
            assert(views(r@) == ordered(s@, SortKey::CreatedAt, descending));
        }
        r
    }

    /// Create and store a task from `c` with a fresh identifier.
    pub fn create(&self, c: &TaskCreate) -> (r: Task)
        ensures
            r@.title == c.title@,
            r@.description == c.description@,
            !r@.completed,
            r@.created_at == r@.updated_at,
            r@.tags.len() == 0,
            r@.priority == Priority::Medium,
            exists|s: TaskStore, s2: TaskStore| {
                &&& s.wf()
                &&& s2.wf()
                &&& !s.issued().contains(r.id)
                &&& !has_id(s@, r.id)
                &&& s2@ == s@.push(r@)
                &&& s2.issued() == s.issued().insert(r.id)
            },
    {
        with_write(self, |s: TaskStore| -> (out: (TaskStore, Task))
            requires
                s.wf(),
            ensures
                out.0.wf(),
                out.1@.title == c.title@,
                out.1@.description == c.description@,
                !out.1@.completed,
                out.1@.created_at == out.1@.updated_at,
                out.1@.tags.len() == 0,
                out.1@.priority == Priority::Medium,
                !s.issued().contains(out.1.id),
                !has_id(s@, out.1.id),
                out.0@ == s@.push(out.1@),
                out.0.issued() == s.issued().insert(out.1.id),
            {
                let mut s = s;
                let t = s.create(c);
                (s, t)
            })
    }

    /// Apply the fields present in `upd` to the task with identifier `id` and
    /// return the updated copy, or nothing if there is no such task.
    pub fn update(&self, id: u128, upd: TaskUpdate) -> (r: Option<Task>)
        ensures
            exists|s: TaskStore, s2: TaskStore| {
                &&& s.wf()
                &&& s2.wf()
                &&& (r is None <==> !has_id(s@, id))
                &&& (r is None ==> s2@ == s@)
                &&& (r matches Some(t) ==> (exists|now: i64| t@ == s@[crate::store::index_of(s@, id)].updated(upd, now))
                    && s2@ == s@.update(crate::store::index_of(s@, id), t@))
            },
    {
        with_write(self, move |s: TaskStore| -> (out: (TaskStore, Option<Task>))
            requires
                s.wf(),
            ensures
                out.0.wf(),
                out.1 is None <==> !has_id(s@, id),
                out.1 is None ==> out.0@ == s@,
                out.1 matches Some(t) ==> (exists|now: i64| t@ == s@[crate::store::index_of(s@, id)].updated(upd, now))
                    && out.0@ == s@.update(crate::store::index_of(s@, id), t@),
            {
                let mut s = s;
                let r = s.update(id, upd);
                (s, r)
            })
    }

    /// Delete the task with identifier `id`; true if there was one.
    pub fn remove(&self, id: u128) -> (r: bool)
        ensures
            exists|s: TaskStore, s2: TaskStore| {
                &&& s.wf()
                &&& s2.wf()
                &&& r == has_id(s@, id)
                &&& (r ==> s2@ == s@.remove(crate::store::index_of(s@, id)))
                &&& (!r ==> s2@ == s@)
            },
    {
        with_write(self, move |s: TaskStore| -> (out: (TaskStore, bool))
            requires
                s.wf(),
            ensures
                out.0.wf(),
                out.1 == has_id(s@, id),
                out.1 ==> out.0@ == s@.remove(crate::store::index_of(s@, id)),
                !out.1 ==> out.0@ == s@,
            {
                let mut s = s;
                let r = s.remove(id);
                (s, r)
            })
    }

    /// Delete every task whose identifier is in `ids`; returns how many were deleted.
    pub fn remove_many(&self, ids: &[u128]) -> (r: usize)
        ensures
            exists|s: TaskStore, s2: TaskStore| {
                &&& s.wf()
                &&& s2.wf()
                &&& r == s@.filter(crate::store::listed(ids@)).len()
                &&& s2@ == s@.filter(crate::store::unlisted(ids@))
            },
    {
        with_write(self, |s: TaskStore| -> (out: (TaskStore, usize))
            requires
                s.wf(),
            ensures
                out.0.wf(),
                out.1 == s@.filter(crate::store::listed(ids@)).len(),
                out.0@ == s@.filter(crate::store::unlisted(ids@)),
            {
                let mut s = s;
                let r = s.remove_many(ids);
                (s, r)
            })
    }

    /// Create one task per entry of `creates`, in order, in one step under the lock.
    pub fn insert_many(&self, creates: &[TaskCreate]) -> (r: Vec<Task>)
        ensures
            r@.len() == creates@.len(),
            forall|i: int| #![trigger r@[i]] 0 <= i < r@.len() ==> r@[i]@.title == creates@[i].title@
                && r@[i]@.description == creates@[i].description@,
            crate::store::ids_distinct(views(r@)),
            exists|s: TaskStore, s2: TaskStore| {
                &&& s.wf()
                &&& s2.wf()
                &&& s2@ == s@ + views(r@)
                &&& forall|i: int| 0 <= i < r@.len() ==> !s.issued().contains(#[trigger] r@[i].id)
            },
    {
        with_write(self, |s: TaskStore| -> (out: (TaskStore, Vec<Task>))
            requires
                s.wf(),
            ensures
                out.0.wf(),
                out.1@.len() == creates@.len(),
                forall|i: int| #![trigger out.1@[i]] 0 <= i < out.1@.len() ==> out.1@[i]@.title == creates@[i].title@
                    && out.1@[i]@.description == creates@[i].description@,
                crate::store::ids_distinct(views(out.1@)),
                out.0@ == s@ + views(out.1@),
                forall|i: int| 0 <= i < out.1@.len() ==> !s.issued().contains(#[trigger] out.1@[i].id),
            {
                let mut s = s;
                let r = s.insert_many(creates);
                (s, r)
            })
    }
}

} // verus!
