//! The record store: tasks by identifier, in insertion order, with identifiers
//! that are never handed out twice.

use std::collections::HashSet;
use vstd::prelude::*;
use crate::task::{now_micros, random_id, Priority, Task, TaskCreate, TaskUpdate, TaskView};

verus! {

broadcast use vstd::std_specs::hash::group_hash_axioms;

/// The models of a list of tasks.
pub open spec fn views(ts: Seq<Task>) -> Seq<TaskView> {
    ts.map_values(|t: Task| t@)
}

/// No two tasks share an identifier.
pub open spec fn ids_distinct(s: Seq<TaskView>) -> bool {
    forall|i: int, j: int| 0 <= i < j < s.len() ==> #[trigger] s[i].id != #[trigger] s[j].id
}

/// Some task has identifier `id`.
pub open spec fn has_id(s: Seq<TaskView>, id: u128) -> bool {
    exists|i: int| 0 <= i < s.len() && #[trigger] s[i].id == id
}

/// The position of the task with identifier `id`.
pub open spec fn index_of(s: Seq<TaskView>, id: u128) -> int {
    choose|i: int| 0 <= i < s.len() && #[trigger] s[i].id == id
}

/// The task with identifier `id`, if any.
pub open spec fn find(s: Seq<TaskView>, id: u128) -> Option<TaskView> {
    if has_id(s, id) {
        Some(s[index_of(s, id)])
    } else {
        None
    }
}

/// The models of an optional task.
pub open spec fn opt_view(t: Option<Task>) -> Option<TaskView> {
    match t {
        Some(x) => Some(x@),
        None => None,
    }
}

/// With distinct identifiers, a task found at `k` is the one `find` names.
pub proof fn lemma_find_at(s: Seq<TaskView>, id: u128, k: int)
    requires
        ids_distinct(s),
        0 <= k < s.len(),
        s[k].id == id,
    ensures
        has_id(s, id),
        index_of(s, id) == k,
        find(s, id) == Some(s[k]),
{
    assert(has_id(s, id));
    let j = index_of(s, id);
    if j != k {
        if j < k {
            assert(s[j].id != s[k].id);
        } else {
            assert(s[k].id != s[j].id);
        }
    }
}

/// The test that keeps the tasks whose identifier is not in `ids`.
pub open spec fn unlisted(ids: Seq<u128>) -> spec_fn(TaskView) -> bool {
    |t: TaskView| !ids.contains(t.id)
}

/// The test that keeps the tasks whose identifier is in `ids`.
pub open spec fn listed(ids: Seq<u128>) -> spec_fn(TaskView) -> bool {
    |t: TaskView| ids.contains(t.id)
}

/// Deleting the listed tasks removes exactly as many tasks as are listed.
pub proof fn lemma_removed_count(s: Seq<TaskView>, ids: Seq<u128>)
    ensures
        s.len() - s.filter(unlisted(ids)).len() == s.filter(listed(ids)).len(),
    decreases s.len(),
{
    reveal(Seq::filter);
    if s.len() > 0 {
        lemma_removed_count(s.drop_last(), ids);
        s.drop_last().lemma_filter_len(unlisted(ids));
    }
}

/// The `k`-th value tried when looking for an unused identifier from `start`.
pub open spec fn candidate(start: u128, k: int) -> u128 {
    ((start as int + k) % (u128::MAX as int + 1)) as u128
}

/// The store of tasks.
pub struct TaskStore {
    tasks: Vec<Task>,
    issued: HashSet<u128>,
}

impl View for TaskStore {
    type V = Seq<TaskView>;

    closed spec fn view(&self) -> Seq<TaskView> {
        views(self.tasks@)
    }
}

impl TaskStore {
    /// Every identifier that this store has ever held.
    pub closed spec fn issued(&self) -> Set<u128> {
        self.issued@
    }

    /// Identifiers are distinct, each task is well formed, and every identifier
    /// present was recorded as issued.
    pub closed spec fn wf(&self) -> bool {
        &&& ids_distinct(self@)
        &&& forall|i: int| 0 <= i < self@.len() ==> (#[trigger] self@[i]).wf()
        &&& forall|i: int| 0 <= i < self@.len() ==> self.issued@.contains(#[trigger] self@[i].id)
        &&& self.issued@.finite()
    }

    /// Identifiers present are among those issued.
    pub proof fn lemma_present_issued(&self, id: u128)
        requires
            self.wf(),
            has_id(self@, id),
        ensures
            self.issued().contains(id),
    {
        let k = choose|k: int| 0 <= k < self@.len() && #[trigger] self@[k].id == id;
        assert(self.issued@.contains(self@[k].id));
    }

    /// Each stored task is well formed, and identifiers are distinct.
    pub proof fn lemma_wf_tasks(&self)
        requires
            self.wf(),
        ensures
            ids_distinct(self@),
            forall|i: int| 0 <= i < self@.len() ==> (#[trigger] self@[i]).wf(),
    {
    }

    /// An empty store.
    pub fn new() -> (r: TaskStore)
        ensures
            r.wf(),
            r@.len() == 0,
            r.issued() == Set::<u128>::empty(),
    {
        let r = TaskStore { tasks: Vec::new(), issued: HashSet::new() };
        assert(r@ =~= Seq::<TaskView>::empty());
        r
    }

    /// Where the task with identifier `id` stands.
    fn position(&self, id: u128) -> (r: Option<usize>)
        requires
            self.wf(),
        ensures
            r matches Some(k) ==> k < self@.len() && self@[k as int].id == id && index_of(
                self@,
                id,
            ) == k && find(self@, id) == Some(self@[k as int]),
            r is None ==> !has_id(self@, id) && find(self@, id) is None,
    {
        let mut i: usize = 0;
        while i < self.tasks.len()
            invariant
                self.wf(),
                i <= self@.len(),
                forall|j: int| 0 <= j < i ==> self@[j].id != id,
            decreases self@.len() - i,
        {
            if self.tasks[i].id == id {
                proof {
                    lemma_find_at(self@, id, i as int);
                }
                return Some(i);
            }
            i += 1;
        }
        None
    }

    /// Number of tasks held.
    pub fn count(&self) -> (r: usize)
        ensures
            r == self@.len(),
    {
        self.tasks.len()
    }

    /// A copy of the task with identifier `id`, if any.
    pub fn get(&self, id: u128) -> (r: Option<Task>)
        requires
            self.wf(),
        ensures
            opt_view(r) == find(self@, id),
    {
        match self.position(id) {
            Some(k) => Some(self.tasks[k].snapshot()),
            None => None,
        }
    }

    /// Copies of all tasks, in insertion order.
    pub fn list(&self) -> (r: Vec<Task>)
        ensures
            views(r@) == self@,
    {
        let mut out: Vec<Task> = Vec::new();
        let mut i: usize = 0;
        while i < self.tasks.len()
            invariant
                i <= self@.len(),
                views(out@) == self@.subrange(0, i as int),
            decreases self@.len() - i,
        {
            let t = self.tasks[i].snapshot();
            let ghost prev = out@;
            out.push(t);
            assert(views(out@) =~= views(prev).push(t@));
            assert(views(out@) =~= self@.subrange(0, i as int + 1));
            i += 1;
        }
        assert(self@.subrange(0, i as int) =~= self@);
        out
    }

    /// Store `task`, replacing the task with the same identifier if there is one.
    pub fn insert(&mut self, task: Task)
        requires
            old(self).wf(),
            task@.wf(),
        ensures
            final(self).wf(),
            final(self).issued() == old(self).issued().insert(task.id),
            has_id(old(self)@, task.id) ==> final(self)@ == old(self)@.update(
                index_of(old(self)@, task.id),
                task@,
            ),
            !has_id(old(self)@, task.id) ==> final(self)@ == old(self)@.push(task@),
    {
        let id = task.id;
        let ghost before = self@;
        match self.position(id) {
            Some(k) => {
                self.tasks.set(k, task);
                assert(self@ =~= before.update(k as int, task@));
            },
            None => {
                self.tasks.push(task);
                assert(self@ =~= before.push(task@));
            },
        }
        self.issued.insert(id);
        assert forall|i: int, j: int| 0 <= i < j < self@.len() implies #[trigger] self@[i].id
            != #[trigger] self@[j].id by {
            if i < before.len() && j < before.len() {
                assert(before[i].id != before[j].id);
            }
        }
    }

    /// An identifier that this store has never issued.
    fn fresh_id(&self) -> (r: u128)
        requires
            self.wf(),
        ensures
            !self.issued().contains(r),
    {
        let start = random_id();
        let mut cand: u128 = start;
        let n = self.issued.len();
        let mut k: usize = 0;
        let ghost mut tried: Set<u128> = Set::empty();
        while self.issued.contains(&cand)
            invariant
                self.wf(),
                n == self.issued@.len(),
                tried.finite(),
                tried.len() == k,
                tried.subset_of(self.issued@),
                cand == candidate(start, k as int),
                forall|x: u128| #[trigger] tried.contains(x) ==> exists|j: int|
                    0 <= j < k && x == candidate(start, j),
            decreases self.issued@.len() - k,
        {
            proof {
                assert(!tried.contains(cand)) by {
                    if tried.contains(cand) {
                        let j = choose|j: int| 0 <= j < k && cand == candidate(start, j);
                        assert(candidate(start, j) != candidate(start, k as int));
                    }
                }
                tried = tried.insert(cand);
                vstd::set_lib::lemma_len_subset(tried, self.issued@);
            }
            k = k + 1;
            cand = cand.wrapping_add(1);
            assert(cand == candidate(start, k as int));
        }
        cand
    }

    /// Create and store a task from `c`, with a fresh identifier and the current time.
    pub fn create(&mut self, c: &TaskCreate) -> (r: Task)
        requires
            old(self).wf(),
        ensures
            final(self).wf(),
            !old(self).issued().contains(r.id),
            !has_id(old(self)@, r.id),
            final(self).issued() == old(self).issued().insert(r.id),
            final(self)@ == old(self)@.push(r@),
            r@.title == c.title@,
            r@.description == c.description@,
            !r@.completed,
            r@.created_at == r@.updated_at,
            r@.tags.len() == 0,
            r@.priority == Priority::Medium,
    {
        let id = self.fresh_id();
        proof {
            if has_id(self@, id) {
                self.lemma_present_issued(id);
            }
        }
        let t = Task::with_id(id, c.title.as_str(), c.description.as_str(), now_micros());
        let r = t.snapshot();
        self.insert(t);
        r
    }
    /// Replace the task at `k` by `t`, which keeps its identifier.
    fn replace_at(&mut self, k: usize, t: Task)
        requires
            old(self).wf(),
            k < old(self)@.len(),
            t.id == old(self)@[k as int].id,
            t@.wf(),
        ensures
            final(self).wf(),
            final(self).issued() == old(self).issued(),
            final(self)@ == old(self)@.update(k as int, t@),
    {
        let ghost before = self@;
        self.tasks.set(k, t);
        assert(self@ =~= before.update(k as int, t@));
        assert forall|i: int, j: int| 0 <= i < j < self@.len() implies #[trigger] self@[i].id
            != #[trigger] self@[j].id by {
            assert(before[i].id != before[j].id);
        }
    }

    /// Apply the fields present in `upd` to the task with identifier `id`, stamp
    /// the change with the current time, and return the updated copy.
    pub fn update(&mut self, id: u128, upd: TaskUpdate) -> (r: Option<Task>)
        requires
            old(self).wf(),
        ensures
            final(self).wf(),
            final(self).issued() == old(self).issued(),
            r is None ==> !has_id(old(self)@, id) && final(self)@ == old(self)@,
            r matches Some(t) ==> {
                let k = index_of(old(self)@, id);
                &&& has_id(old(self)@, id)
                &&& exists|now: i64| t@ == old(self)@[k].updated(upd, now)
                &&& t@.updated_at >= old(self)@[k].updated_at
                &&& final(self)@ == old(self)@.update(k, t@)
            },
    {
        match self.position(id) {
            Some(k) => {
                let mut t = self.tasks[k].snapshot();
                let r = t.apply_update(upd);
                self.replace_at(k, t);
                Some(r)
            },
            None => None,
        }
    }

    /// Replace the tags of the task with identifier `id`, stamping the change
    /// with the current time; the tags must already be normalized.
    pub fn replace_tags(&mut self, id: u128, tags: Vec<String>) -> (r: Option<Task>)
        requires
            old(self).wf(),
            crate::task::tags_wf(crate::task::strings_view(tags@)),
        ensures
            final(self).wf(),
            final(self).issued() == old(self).issued(),
            r is None ==> !has_id(old(self)@, id) && final(self)@ == old(self)@,
            r matches Some(t) ==> {
                let k = index_of(old(self)@, id);
                let o = old(self)@[k];
                &&& has_id(old(self)@, id)
                &&& t@ == (TaskView {
                    tags: crate::task::strings_view(tags@),
                    updated_at: t@.updated_at,
                    ..o
                })
                &&& t@.updated_at >= o.updated_at
                &&& final(self)@ == old(self)@.update(k, t@)
            },
    {
        match self.position(id) {
            Some(k) => {
                let mut t = self.tasks[k].snapshot();
                t.tags = tags;
                let now = now_micros();
                if now > t.updated_at {
                    t.updated_at = now;
                }
                let r = t.snapshot();
                self.replace_at(k, t);
                Some(r)
            },
            None => None,
        }
    }

    /// Set the priority of the task with identifier `id`, stamping the change
    /// with the current time.
    pub fn set_priority(&mut self, id: u128, p: Priority) -> (r: Option<Task>)
        requires
            old(self).wf(),
        ensures
            final(self).wf(),
            final(self).issued() == old(self).issued(),
            r is None ==> !has_id(old(self)@, id) && final(self)@ == old(self)@,
            r matches Some(t) ==> {
                let k = index_of(old(self)@, id);
                let o = old(self)@[k];
                &&& has_id(old(self)@, id)
                &&& t@ == (TaskView { priority: p, updated_at: t@.updated_at, ..o })
                &&& t@.updated_at >= o.updated_at
                &&& final(self)@ == old(self)@.update(k, t@)
            },
    {
        match self.position(id) {
            Some(k) => {
                let mut t = self.tasks[k].snapshot();
                t.priority = p;
                let now = now_micros();
                if now > t.updated_at {
                    t.updated_at = now;
                }
                let r = t.snapshot();
                self.replace_at(k, t);
                Some(r)
            },
            None => None,
        }
    }

    /// Delete the task with identifier `id`; true if there was one.
    pub fn remove(&mut self, id: u128) -> (r: bool)
        requires
            old(self).wf(),
        ensures
            final(self).wf(),
            final(self).issued() == old(self).issued(),
            r == has_id(old(self)@, id),
            r ==> final(self)@ == old(self)@.remove(index_of(old(self)@, id)),
            !r ==> final(self)@ == old(self)@,
    {
        match self.position(id) {
            Some(k) => {
                let ghost before = self@;
                self.tasks.remove(k);
                assert(self@ =~= before.remove(k as int));
                assert forall|i: int, j: int| 0 <= i < j < self@.len() implies #[trigger] self@[i].id
                    != #[trigger] self@[j].id by {
                    if j < k {
                        assert(before[i].id != before[j].id);
                    } else if i < k {
                        assert(before[i].id != before[j + 1].id);
                    } else {
                        assert(before[i + 1].id != before[j + 1].id);
                    }
                }
                assert forall|i: int| 0 <= i < self@.len() implies self.issued@.contains(
                    #[trigger] self@[i].id,
                ) by {
                    if i >= k {
                        assert(self@[i] == before[i + 1]);
                    }
                }
                true
            },
            None => false,
        }
    }

    /// Delete every task whose identifier is in `ids`; identifiers with no task
    /// are skipped. Returns how many tasks were deleted.
    pub fn remove_many(&mut self, ids: &[u128]) -> (r: usize)
        requires
            old(self).wf(),
        ensures
            final(self).wf(),
            final(self).issued() == old(self).issued(),
            final(self)@ == old(self)@.filter(unlisted(ids@)),
            r == old(self)@.len() - final(self)@.len(),
            r == old(self)@.filter(listed(ids@)).len(),
    {
        let ghost before = self@;
        let mut kept: Vec<Task> = Vec::new();
        let mut i: usize = 0;
        while i < self.tasks.len()
            invariant
                self.wf(),
                self@ == before,
                i <= before.len(),
                views(kept@) == before.subrange(0, i as int).filter(unlisted(ids@)),
                kept@.len() <= i,
                forall|a: int| 0 <= a < kept@.len() ==> exists|b: int|
                    0 <= b < i && #[trigger] kept@[a]@ == before[b],
                ids_distinct(views(kept@)),
                forall|a: int| 0 <= a < kept@.len() ==> (#[trigger] kept@[a])@.wf()
                    && self.issued@.contains(kept@[a].id),
            decreases before.len() - i,
        {
            let t = self.tasks[i].snapshot();
            let ghost prefix = before.subrange(0, i as int + 1);
            assert(prefix.drop_last() =~= before.subrange(0, i as int));
            assert(prefix.last() == t@);
            assert(self@[i as int].wf() && self.issued@.contains(self@[i as int].id));
            let found = holds_id(ids, t.id);
            assert(unlisted(ids@)(t@) == !found);
            if !found {
                assert(prefix.filter(unlisted(ids@)) == before.subrange(0, i as int).filter(unlisted(ids@)).push(t@))
                    by {
                    reveal(Seq::filter);
                    assert(prefix.len() > 0);
                    assert(unlisted(ids@)(prefix.last()));
                    assert(prefix.drop_last().filter(unlisted(ids@)) == before.subrange(0, i as int).filter(unlisted(ids@)));
                }
                let ghost prev = kept@;
                kept.push(t);
                assert(views(kept@) =~= views(prev).push(t@));
                assert forall|a: int| 0 <= a < kept@.len() implies exists|b: int|
                    0 <= b < i + 1 && #[trigger] kept@[a]@ == before[b] by {
                    if a < prev.len() {
                        assert(kept@[a] == prev[a]);
                    } else {
                        assert(kept@[a]@ == before[i as int]);
                    }
                }
                assert forall|a: int, c: int| 0 <= a < c < views(kept@).len() implies #[trigger] views(
                    kept@,
                )[a].id != #[trigger] views(kept@)[c].id by {
                    if c == prev.len() {
                        let b = choose|b: int| 0 <= b < i && #[trigger] prev[a]@ == before[b];
                        assert(kept@[a] == prev[a]);
                        assert(before[b].id != before[i as int].id);
                    } else {
                        assert(views(prev)[a].id != views(prev)[c].id);
                    }
                }
                assert forall|a: int| 0 <= a < kept@.len() implies (#[trigger] kept@[a])@.wf()
                    && self.issued@.contains(kept@[a].id) by {
                    if a < prev.len() {
                        assert(kept@[a] == prev[a]);
                    }
                }
            } else {
                assert(prefix.filter(unlisted(ids@)) == before.subrange(0, i as int).filter(unlisted(ids@))) by {
                    reveal(Seq::filter);
                }
            }
            assert(views(kept@) == prefix.filter(unlisted(ids@)));
            i += 1;
        }
        assert(before.subrange(0, i as int) =~= before);
        let removed = self.tasks.len() - kept.len();
        self.tasks = kept;
        proof {
            lemma_removed_count(before, ids@);
        }
        removed
    }

    /// Create and store one task per entry of `creates`, in order; the entries are
    /// not validated. Returns the created tasks in the same order.
    pub fn insert_many(&mut self, creates: &[TaskCreate]) -> (r: Vec<Task>)
        requires
            old(self).wf(),
        ensures
            final(self).wf(),
            final(self)@ == old(self)@ + views(r@),
            r@.len() == creates@.len(),
            forall|i: int| #![trigger r@[i]] 0 <= i < r@.len() ==> {
                &&& r@[i]@.title == creates@[i].title@
                &&& r@[i]@.description == creates@[i].description@
                &&& !r@[i]@.completed
                &&& r@[i]@.created_at == r@[i]@.updated_at
                &&& r@[i]@.tags.len() == 0
                &&& r@[i]@.priority == Priority::Medium
                &&& !old(self).issued().contains(r@[i].id)
            },
            ids_distinct(views(r@)),
            old(self).issued().subset_of(final(self).issued()),
    {
        let ghost before = self@;
        let ghost issued0 = self.issued();
        let mut out: Vec<Task> = Vec::new();
        let mut i: usize = 0;
        while i < creates.len()
            invariant
                self.wf(),
                i <= creates@.len(),
                out@.len() == i,
                self@ == before + views(out@),
                issued0.subset_of(self.issued()),
                forall|a: int| 0 <= a < out@.len() ==> self.issued().contains(#[trigger] out@[a].id),
                forall|a: int| #![trigger out@[a]] 0 <= a < out@.len() ==> {
                    &&& out@[a]@.title == creates@[a].title@
                    &&& out@[a]@.description == creates@[a].description@
                    &&& !out@[a]@.completed
                    &&& out@[a]@.created_at == out@[a]@.updated_at
                    &&& out@[a]@.tags.len() == 0
                    &&& out@[a]@.priority == Priority::Medium
                    &&& !issued0.contains(out@[a].id)
                },
                ids_distinct(views(out@)),
            decreases creates@.len() - i,
        {
            let ghost prev = out@;
            let ghost self_before = self@;
            let t = self.create(&creates[i]);
            out.push(t);
            assert(views(out@) =~= views(prev).push(t@));
            assert(self@ =~= before + views(out@));
            assert forall|a: int, c: int| 0 <= a < c < views(out@).len() implies #[trigger] views(
                out@,
            )[a].id != #[trigger] views(out@)[c].id by {
                if c == prev.len() {
                    assert(self.issued().contains(prev[a].id));
                } else {
                    assert(views(prev)[a].id != views(prev)[c].id);
                }
            }
            i += 1;
        }
        out
    }
}

/// Whether `ids` holds `id`.
fn holds_id(ids: &[u128], id: u128) -> (r: bool)
    ensures
        r == ids@.contains(id),
{
    let mut i: usize = 0;
    while i < ids.len()
        invariant
            i <= ids@.len(),
            forall|j: int| 0 <= j < i ==> ids@[j] != id,
        decreases ids@.len() - i,
    {
        if ids[i] == id {
            return true;
        }
        i += 1;
    }
    false
}

} // verus!
