use vstd::prelude::*;
use crate::task::{Task, TaskStatus};

verus! {

/// Selects the tasks whose status is `status`.
pub open spec fn has_status(status: TaskStatus) -> spec_fn(Task) -> bool {
    |t: Task| t.status == status
}

/// Selects the tasks whose identifier is not `id`.
pub open spec fn other_than(id: nat) -> spec_fn(Task) -> bool {
    |t: Task| t.id != id
}

/// Replaces the status of the task identified by `id`, leaving others alone.
pub open spec fn restatus(id: nat, status: TaskStatus) -> spec_fn(Task) -> Task {
    |t: Task| if t.id == id { t.with_status(status) } else { t }
}

/// The abstract content of a store: its tasks in insertion order and the
/// identifier that the next added task will receive.
pub struct StoreView {
    pub tasks: Seq<Task>,
    pub next_id: nat,
}

impl StoreView {
    pub open spec fn empty() -> StoreView {
        StoreView { tasks: Seq::empty(), next_id: 1 }
    }

    /// Every identifier is positive, below the counter, and used once.
    pub open spec fn wf(self) -> bool {
        &&& self.next_id >= 1
        &&& forall|i: int|
            0 <= i < self.tasks.len() ==> 1 <= #[trigger] self.tasks[i].id < self.next_id
        &&& forall|i: int, j: int|
            0 <= i < self.tasks.len() && 0 <= j < self.tasks.len() && i != j
                ==> #[trigger] self.tasks[i].id != #[trigger] self.tasks[j].id
    }

    pub open spec fn has_id(self, id: nat) -> bool {
        exists|i: int| 0 <= i < self.tasks.len() && #[trigger] self.tasks[i].id == id
    }

    /// The task that `add_task` appends.
    pub open spec fn new_task(self, description: String) -> Task {
        Task { id: self.next_id as usize, description, status: TaskStatus::Todo }
    }

    pub open spec fn add(self, description: String) -> StoreView {
        StoreView {
            tasks: self.tasks.push(self.new_task(description)),
            next_id: self.next_id + 1,
        }
    }

    pub open spec fn set_status(self, id: nat, status: TaskStatus) -> StoreView {
        StoreView { tasks: self.tasks.map_values(restatus(id, status)), next_id: self.next_id }
    }

    pub open spec fn remove(self, id: nat) -> StoreView {
        StoreView { tasks: self.tasks.filter(other_than(id)), next_id: self.next_id }
    }

    pub open spec fn clear_done(self) -> StoreView {
        StoreView { tasks: self.todo(), next_id: self.next_id }
    }

    pub open spec fn todo(self) -> Seq<Task> {
        self.tasks.filter(has_status(TaskStatus::Todo))
    }

    pub open spec fn done(self) -> Seq<Task> {
        self.tasks.filter(has_status(TaskStatus::Done))
    }
}

/// The store that persisted parts describe, when they form one.
pub open spec fn restored(tasks: Seq<Task>, next_id: nat) -> Option<StoreView> {
    let v = StoreView { tasks, next_id };
    if v.wf() {
        Some(v)
    } else {
        None
    }
}

/// Why a set of tasks and a counter cannot form a store.
#[derive(Clone, Copy, Debug, PartialEq, Eq, Structural)]
pub enum StoreError {
    /// An identifier is zero, not below the counter, or used twice, or the
    /// counter is zero.
    InvalidData,
}

/// Keeping every element of a sequence leaves it as it is.
pub proof fn lemma_filter_keeps_all(s: Seq<Task>, p: spec_fn(Task) -> bool)
    requires
        forall|i: int| 0 <= i < s.len() ==> p(#[trigger] s[i]),
    ensures
        s.filter(p) == s,
    decreases s.len(),
{
    reveal(Seq::filter);
    if s.len() > 0 {
        lemma_filter_keeps_all(s.drop_last(), p);
        assert(s.drop_last().push(s.last()) =~= s);
    }
}

/// Dropping the one element that fails the predicate is removing it.
pub proof fn lemma_filter_drops_one(s: Seq<Task>, p: spec_fn(Task) -> bool, k: int)
    requires
        0 <= k < s.len(),
        !p(s[k]),
        forall|i: int| 0 <= i < s.len() && i != k ==> p(#[trigger] s[i]),
    ensures
        s.filter(p) == s.remove(k),
    decreases s.len(),
{
    reveal(Seq::filter);
    if k == s.len() - 1 {
        lemma_filter_keeps_all(s.drop_last(), p);
        assert(s.drop_last() =~= s.remove(k));
    } else {
        lemma_filter_drops_one(s.drop_last(), p, k);
        assert(s.drop_last().remove(k).push(s.last()) =~= s.remove(k));
    }
}

/// Each task is pending or done, so the two selections split the sequence.
pub proof fn lemma_status_split_len(s: Seq<Task>)
    ensures
        s.filter(has_status(TaskStatus::Todo)).len() + s.filter(has_status(TaskStatus::Done)).len()
            == s.len(),
    decreases s.len(),
{
    reveal(Seq::filter);
    if s.len() > 0 {
        lemma_status_split_len(s.drop_last());
    }
}

/// Keeping some of the tasks of a well-formed store keeps it well formed.
pub proof fn lemma_filter_wf(v: StoreView, p: spec_fn(Task) -> bool)
    requires
        v.wf(),
    ensures
        (StoreView { tasks: v.tasks.filter(p), next_id: v.next_id }).wf(),
    decreases v.tasks.len(),
{
    reveal(Seq::filter);
    if v.tasks.len() > 0 {
        let rest = StoreView { tasks: v.tasks.drop_last(), next_id: v.next_id };
        lemma_filter_wf(rest, p);
        let f = rest.tasks.filter(p);
        let last = v.tasks.last();
        if p(last) {
            assert forall|k: int| 0 <= k < f.len() implies #[trigger] f[k].id != last.id by {
                rest.tasks.lemma_filter_contains_rev(p, f[k]);
                let m = choose|m: int| 0 <= m < rest.tasks.len() && rest.tasks[m] == f[k];
                assert(v.tasks[m].id != v.tasks[v.tasks.len() - 1].id);
            }
            let g = f.push(last);
            assert forall|k: int, l: int|
                0 <= k < g.len() && 0 <= l < g.len() && k != l implies #[trigger] g[k].id
                != #[trigger] g[l].id by {
                if k == g.len() - 1 {
                    assert(g[l] == f[l]);
                } else if l == g.len() - 1 {
                    assert(g[k] == f[k]);
                } else {
                    assert(g[k] == f[k] && g[l] == f[l]);
                }
            }
        }
    }
}

/// Position of the task identified by `id`, found by a scan from the front.
fn position_of(tasks: &Vec<Task>, id: usize) -> (r: Option<usize>)
    ensures
        match r {
            Some(i) => i < tasks@.len() && tasks@[i as int].id == id,
            None => forall|j: int| 0 <= j < tasks@.len() ==> #[trigger] tasks@[j].id != id,
        },
{
    let mut i: usize = 0;
    while i < tasks.len()
        invariant
            i <= tasks@.len(),
            forall|j: int| 0 <= j < i ==> #[trigger] tasks@[j].id != id,
        decreases tasks@.len() - i,
    {
        if tasks[i].id == id {
            return Some(i);
        }
        i = i + 1;
    }
    None
}

/// Copies, in order, the tasks whose status is `status`.
fn select(tasks: &Vec<Task>, status: TaskStatus) -> (r: Vec<Task>)
    ensures
        r@ == tasks@.filter(has_status(status)),
{
    let mut r: Vec<Task> = Vec::new();
    let mut i: usize = 0;
    while i < tasks.len()
        invariant
            i <= tasks@.len(),
            r@ == tasks@.take(i as int).filter(has_status(status)),
        decreases tasks@.len() - i,
    {
        proof {
            assert(tasks@.take(i + 1) == tasks@.take(i as int).push(tasks@[i as int]));
            tasks@.take(i as int).lemma_filter_push(tasks@[i as int], has_status(status));
        }
        if tasks[i].status == status {
            let t = tasks[i].clone();
            assert(t == tasks@[i as int]);
            assert(has_status(status)(t));
            r.push(t);
        } else {
            assert(!has_status(status)(tasks@[i as int]));
        }
        i = i + 1;
    }
    assert(tasks@.take(i as int) == tasks@);
    r
}

/// The tasks of a store, in the order they were added, with the counter
/// that supplies identifiers.
pub struct TodoList {
    tasks: Vec<Task>,
    next_id: usize,
}

impl View for TodoList {
    type V = StoreView;

    closed spec fn view(&self) -> StoreView {
        StoreView { tasks: self.tasks@, next_id: self.next_id as nat }
    }
}

impl TodoList {
    #[verifier::type_invariant]
    spec fn inv(self) -> bool {
        self@.wf()
    }

    pub fn new() -> (s: TodoList)
        ensures
            s@ == StoreView::empty(),
    {
        let s = TodoList { tasks: Vec::new(), next_id: 1 };
        assert(s@.tasks =~= Seq::<Task>::empty());
        s
    }

    /// The file, in the working directory, that holds the persisted store.
    pub fn get_file_path() -> (r: String)
        ensures
            r@ == "tasks.json"@,
    {
        "tasks.json".to_owned()
    }

    /// Builds a store from persisted parts, refusing parts that break the
    /// store's invariant.
    pub fn from_parts(tasks: Vec<Task>, next_id: usize) -> (r: Result<TodoList, StoreError>)
        ensures
            match r {
                Ok(s) => restored(tasks@, next_id as nat) == Some(s@),
                Err(e) => restored(tasks@, next_id as nat) is None && e == StoreError::InvalidData,
            },
    {
        let ghost v = StoreView { tasks: tasks@, next_id: next_id as nat };
        if next_id == 0 {
            return Err(StoreError::InvalidData);
        }
        let n = tasks.len();
        let mut i: usize = 0;
        while i < n
            invariant
                n == tasks@.len(),
                v == (StoreView { tasks: tasks@, next_id: next_id as nat }),
                i <= n,
                next_id >= 1,
                forall|k: int| 0 <= k < i ==> 1 <= #[trigger] tasks@[k].id < next_id,
                forall|k: int, l: int|
                    0 <= k < i && 0 <= l < i && k != l ==> #[trigger] tasks@[k].id
                        != #[trigger] tasks@[l].id,
            decreases n - i,
        {
            let id = tasks[i].id;
            if id == 0 || id >= next_id {
                return Err(StoreError::InvalidData);
            }
            let mut j: usize = 0;
            while j < i
                invariant
                    n == tasks@.len(),
                    v == (StoreView { tasks: tasks@, next_id: next_id as nat }),
                    i < n,
                    j <= i,
                    id == tasks@[i as int].id,
                    forall|l: int| 0 <= l < j ==> #[trigger] tasks@[l].id != id,
                decreases i - j,
            {
                if tasks[j].id == id {
                    assert(!v.wf()) by {
                        assert(v.tasks[j as int].id == v.tasks[i as int].id);
                    }
                    return Err(StoreError::InvalidData);
                }
                j = j + 1;
            }
            i = i + 1;
        }
        let s = TodoList { tasks, next_id };
        Ok(s)
    }

    /// The parts to persist: the tasks in order and the counter.
    pub fn into_parts(self) -> (r: (Vec<Task>, usize))
        ensures
            self@.wf(),
            r.0@ == self@.tasks,
            r.1 == self@.next_id,
    {
        proof {
            use_type_invariant(&self);
        }
        (self.tasks, self.next_id)
    }

    pub fn next_id(&self) -> (r: usize)
        ensures
            r == self@.next_id,
    {
        self.next_id
    }

    /// Appends a pending task under the next identifier and returns that
    /// identifier.
    pub fn add_task(&mut self, description: String) -> (id: usize)
        requires
            old(self)@.next_id < usize::MAX,
        ensures
            id == old(self)@.next_id,
            final(self)@ == old(self)@.add(description),
    {
        proof {
            use_type_invariant(&*self);
        }
        let id = self.next_id;
        let mut tasks: Vec<Task> = Vec::new();
        std::mem::swap(&mut tasks, &mut self.tasks);
        tasks.push(Task::new(id, description));
        *self = TodoList { tasks, next_id: id + 1 };
        id
    }

    /// Sets the status of the task identified by `id`; false when there is
    /// no such task.
    fn set_status(&mut self, id: usize, status: TaskStatus) -> (found: bool)
        ensures
            found == old(self)@.has_id(id as nat),
            final(self)@ == old(self)@.set_status(id as nat, status),
    {
        proof {
            use_type_invariant(&*self);
        }
        let ghost s0 = self@;
        let mut tasks: Vec<Task> = Vec::new();
        std::mem::swap(&mut tasks, &mut self.tasks);
        match position_of(&tasks, id) {
            Some(i) => {
                if status == TaskStatus::Done {
                    tasks[i].mark_done();
                } else {
                    tasks[i].mark_todo();
                }
                assert(tasks@ =~= s0.tasks.map_values(restatus(id as nat, status))) by {
                    assert forall|j: int| 0 <= j < tasks@.len() && j != i implies
                        #[trigger] s0.tasks[j].id != id by {
                        assert(s0.tasks[j].id != s0.tasks[i as int].id);
                    }
                }
                self.tasks = tasks;
                true
            },
            None => {
                assert(tasks@ =~= s0.tasks.map_values(restatus(id as nat, status)));
                self.tasks = tasks;
                false
            },
        }
    }

    /// Marks the task identified by `id` as done; false when there is no
    /// such task.
    pub fn mark_done(&mut self, id: usize) -> (found: bool)
        ensures
            found == old(self)@.has_id(id as nat),
            final(self)@ == old(self)@.set_status(id as nat, TaskStatus::Done),
    {
        self.set_status(id, TaskStatus::Done)
    }

    /// Marks the task identified by `id` as pending; false when there is no
    /// such task.
    pub fn mark_todo(&mut self, id: usize) -> (found: bool)
        ensures
            found == old(self)@.has_id(id as nat),
            final(self)@ == old(self)@.set_status(id as nat, TaskStatus::Todo),
    {
        self.set_status(id, TaskStatus::Todo)
    }

    /// Deletes the task identified by `id`, keeping the order of the others;
    /// false when there is no such task.
    pub fn remove_task(&mut self, id: usize) -> (found: bool)
        ensures
            found == old(self)@.has_id(id as nat),
            final(self)@ == old(self)@.remove(id as nat),
    {
        proof {
            use_type_invariant(&*self);
        }
        let ghost s0 = self@;
        let mut tasks: Vec<Task> = Vec::new();
        std::mem::swap(&mut tasks, &mut self.tasks);
        match position_of(&tasks, id) {
            Some(i) => {
                proof {
                    assert forall|j: int| 0 <= j < s0.tasks.len() && j != i implies
                        #[trigger] other_than(id as nat)(s0.tasks[j]) by {
                        assert(s0.tasks[j].id != s0.tasks[i as int].id);
                    }
                    lemma_filter_drops_one(s0.tasks, other_than(id as nat), i as int);
                }
                tasks.remove(i);
                self.tasks = tasks;
                true
            },
            None => {
                proof {
                    lemma_filter_keeps_all(s0.tasks, other_than(id as nat));
                }
                self.tasks = tasks;
                false
            },
        }
    }

    /// All tasks, in insertion order.
    pub fn list_all(&self) -> (r: Vec<Task>)
        ensures
            r@ == self@.tasks,
    {
        let mut r: Vec<Task> = Vec::new();
        let mut i: usize = 0;
        while i < self.tasks.len()
            invariant
                i <= self.tasks@.len(),
                r@ == self.tasks@.take(i as int),
            decreases self.tasks@.len() - i,
        {
            assert(self.tasks@.take(i + 1) == self.tasks@.take(i as int).push(self.tasks@[i as int]));
            r.push(self.tasks[i].clone());
            i = i + 1;
        }
        assert(self.tasks@.take(i as int) == self.tasks@);
        r
    }

    /// The pending tasks, in insertion order.
    pub fn list_todo(&self) -> (r: Vec<Task>)
        ensures
            r@ == self@.todo(),
    {
        select(&self.tasks, TaskStatus::Todo)
    }

    /// The completed tasks, in insertion order.
    pub fn list_done(&self) -> (r: Vec<Task>)
        ensures
            r@ == self@.done(),
    {
        select(&self.tasks, TaskStatus::Done)
    }

    /// Deletes every completed task, keeping the order of the pending ones,
    /// and returns how many were deleted.
    pub fn clear_done(&mut self) -> (count: usize)
        ensures
            final(self)@ == old(self)@.clear_done(),
            count == old(self)@.done().len(),
    {
        proof {
            use_type_invariant(&*self);
            lemma_status_split_len(self@.tasks);
            lemma_filter_wf(self@, has_status(TaskStatus::Todo));
        }
        let initial_count = self.tasks.len();
        let kept = select(&self.tasks, TaskStatus::Todo);
        let count = initial_count - kept.len();
        self.tasks = kept;
        count
    }
}

} // verus!
