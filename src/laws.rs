use vstd::prelude::*;
use crate::task::{Task, TaskStatus};
use crate::store::{
    StoreView,
    has_status,
    restored,
    lemma_filter_keeps_all,
    lemma_filter_wf,
    lemma_status_split_len,
};

verus! {

/// One call that changes a store.
pub enum Op {
    Add(String),
    MarkDone(nat),
    MarkTodo(nat),
    Remove(nat),
    ClearDone,
}

/// The store after one call, as the contracts of `TodoList` describe it.
pub open spec fn step(s: StoreView, op: Op) -> StoreView {
    match op {
        Op::Add(d) => s.add(d),
        Op::MarkDone(id) => s.set_status(id, TaskStatus::Done),
        Op::MarkTodo(id) => s.set_status(id, TaskStatus::Todo),
        Op::Remove(id) => s.remove(id),
        Op::ClearDone => s.clear_done(),
    }
}

/// The store after a sequence of calls, made in order.
pub open spec fn run(s: StoreView, ops: Seq<Op>) -> StoreView
    decreases ops.len(),
{
    if ops.len() == 0 {
        s
    } else {
        step(run(s, ops.drop_last()), ops.last())
    }
}

/// How many of the calls are additions.
pub open spec fn adds(ops: Seq<Op>) -> nat
    decreases ops.len(),
{
    if ops.len() == 0 {
        0
    } else {
        adds(ops.drop_last()) + if ops.last() is Add {
            1nat
        } else {
            0nat
        }
    }
}

/// `a` is `b` with some elements left out, the rest in the same order.
pub open spec fn is_subsequence(a: Seq<Task>, b: Seq<Task>) -> bool
    decreases b.len(),
{
    if b.len() == 0 {
        a.len() == 0
    } else {
        is_subsequence(a, b.drop_last()) || (a.len() > 0 && a.last() == b.last()
            && is_subsequence(a.drop_last(), b.drop_last()))
    }
}

proof fn lemma_counter_counts_adds(s: StoreView, ops: Seq<Op>)
    ensures
        run(s, ops).next_id == s.next_id + adds(ops),
    decreases ops.len(),
{
    if ops.len() > 0 {
        lemma_counter_counts_adds(s, ops.drop_last());
    }
}

proof fn lemma_adds_prefix(ops: Seq<Op>, j: int, k: int)
    requires
        0 <= j <= k <= ops.len(),
    ensures
        adds(ops.take(j)) <= adds(ops.take(k)),
        j < k && ops[j] is Add ==> adds(ops.take(j)) < adds(ops.take(k)),
    decreases k - j,
{
    if j < k {
        lemma_adds_prefix(ops, j, k - 1);
        assert(ops.take(k).drop_last() == ops.take(k - 1));
        if j == k - 1 {
            assert(ops.take(k).last() == ops[j]);
        }
    }
}

/// A store's own parts rebuild it: what `into_parts` hands out,
/// `from_parts` accepts and turns back into the same store.
pub proof fn lemma_parts_round_trip(s: StoreView)
    requires
        s.wf(),
    ensures
        restored(s.tasks, s.next_id) == Some(s),
{
}

/// Starting from an empty store, whatever removals or status changes come
/// in between, the counter is one more than the number of additions, and
/// the addition at position `k` receives one more than the number of
/// additions before it: the additions receive 1, 2, ..., N in call order.
pub proof fn lemma_ids_follow_additions(ops: Seq<Op>)
    ensures
        run(StoreView::empty(), ops).next_id == adds(ops) + 1,
        forall|k: int|
            0 <= k < ops.len() && ops[k] is Add ==> (#[trigger] run(
                StoreView::empty(),
                ops.take(k),
            )).next_id == adds(ops.take(k)) + 1,
{
    lemma_counter_counts_adds(StoreView::empty(), ops);
    assert forall|k: int| 0 <= k < ops.len() && ops[k] is Add implies (#[trigger] run(
        StoreView::empty(),
        ops.take(k),
    )).next_id == adds(ops.take(k)) + 1 by {
        lemma_counter_counts_adds(StoreView::empty(), ops.take(k));
    }
}

proof fn lemma_step_wf(s: StoreView, op: Op)
    requires
        s.wf(),
        op is Add ==> s.next_id < usize::MAX,
    ensures
        step(s, op).wf(),
{
    match op {
        Op::Add(d) => {
            let t = s.add(d).tasks;
            assert forall|i: int, j: int|
                0 <= i < t.len() && 0 <= j < t.len() && i != j implies #[trigger] t[i].id
                != #[trigger] t[j].id by {
                if i < s.tasks.len() && j < s.tasks.len() {
                    assert(t[i] == s.tasks[i] && t[j] == s.tasks[j]);
                } else if i < s.tasks.len() {
                    assert(t[i] == s.tasks[i]);
                } else {
                    assert(t[j] == s.tasks[j]);
                }
            }
            assert forall|i: int| 0 <= i < t.len() implies 1 <= #[trigger] t[i].id < s.next_id
                + 1 by {
                if i < s.tasks.len() {
                    assert(t[i] == s.tasks[i]);
                }
            }
        },
        Op::MarkDone(id) => {
            let t = step(s, op).tasks;
            assert forall|i: int| 0 <= i < t.len() implies #[trigger] t[i].id == s.tasks[i].id by {}
        },
        Op::MarkTodo(id) => {
            let t = step(s, op).tasks;
            assert forall|i: int| 0 <= i < t.len() implies #[trigger] t[i].id == s.tasks[i].id by {}
        },
        Op::Remove(id) => {
            lemma_filter_wf(s, crate::store::other_than(id));
        },
        Op::ClearDone => {
            lemma_filter_wf(s, has_status(TaskStatus::Todo));
        },
    }
}

proof fn lemma_run_wf(s: StoreView, ops: Seq<Op>)
    requires
        s.wf(),
        s.next_id + adds(ops) <= usize::MAX,
    ensures
        run(s, ops).wf(),
    decreases ops.len(),
{
    if ops.len() > 0 {
        lemma_run_wf(s, ops.drop_last());
        lemma_counter_counts_adds(s, ops.drop_last());
        lemma_step_wf(run(s, ops.drop_last()), ops.last());
    }
}

/// From any well-formed store, every sequence of calls keeps the store well
/// formed (identifiers unique and below the counter), and each addition
/// receives an identifier that no task of the store holds and that is
/// larger than the one of every earlier addition: removing tasks never
/// makes an identifier come back.
pub proof fn lemma_no_id_reuse(s: StoreView, ops: Seq<Op>)
    requires
        s.wf(),
        s.next_id + adds(ops) <= usize::MAX,
    ensures
        run(s, ops).wf(),
        forall|k: int|
            0 <= k < ops.len() && ops[k] is Add ==> !(#[trigger] run(s, ops.take(k))).has_id(
                run(s, ops.take(k)).next_id,
            ),
        forall|j: int, k: int|
            0 <= j < k < ops.len() && ops[j] is Add ==> (#[trigger] run(s, ops.take(j))).next_id
                < (#[trigger] run(s, ops.take(k))).next_id,
{
    lemma_run_wf(s, ops);
    assert forall|k: int| 0 <= k < ops.len() && ops[k] is Add implies !(#[trigger] run(
        s,
        ops.take(k),
    )).has_id(run(s, ops.take(k)).next_id) by {
        lemma_adds_prefix(ops, k, ops.len() as int);
        assert(ops.take(ops.len() as int) == ops);
        lemma_run_wf(s, ops.take(k));
    }
    assert forall|j: int, k: int| 0 <= j < k < ops.len() && ops[j] is Add implies (#[trigger] run(
        s,
        ops.take(j),
    )).next_id < (#[trigger] run(s, ops.take(k))).next_id by {
        lemma_adds_prefix(ops, j, k);
        lemma_counter_counts_adds(s, ops.take(j));
        lemma_counter_counts_adds(s, ops.take(k));
    }
}

/// Setting a status twice is setting it once, and the second call finds
/// the task exactly when the first did.
pub proof fn lemma_status_idempotent(s: StoreView, id: nat, status: TaskStatus)
    ensures
        s.set_status(id, status).set_status(id, status) == s.set_status(id, status),
        s.set_status(id, status).has_id(id) == s.has_id(id),
{
    let once = s.set_status(id, status);
    assert(once.set_status(id, status).tasks =~= once.tasks);
    if s.has_id(id) {
        let i = choose|i: int| 0 <= i < s.tasks.len() && #[trigger] s.tasks[i].id == id;
        assert(once.tasks[i].id == id);
    }
    if once.has_id(id) {
        let i = choose|i: int| 0 <= i < once.tasks.len() && #[trigger] once.tasks[i].id == id;
        assert(s.tasks[i].id == id);
    }
}

proof fn lemma_filter_is_subsequence(s: Seq<Task>, p: spec_fn(Task) -> bool)
    ensures
        is_subsequence(s.filter(p), s),
    decreases s.len(),
{
    reveal(Seq::filter);
    if s.len() > 0 {
        lemma_filter_is_subsequence(s.drop_last(), p);
        if p(s.last()) {
            assert(s.filter(p).drop_last() =~= s.drop_last().filter(p));
        }
    }
}

/// The pending and the completed tasks together are all the tasks, no task
/// is in both, and each selection keeps the order of the store.
pub proof fn lemma_filters_partition(s: StoreView)
    ensures
        s.todo().to_set() + s.done().to_set() == s.tasks.to_set(),
        s.todo().to_set().disjoint(s.done().to_set()),
        is_subsequence(s.todo(), s.tasks),
        is_subsequence(s.done(), s.tasks),
{
    broadcast use Seq::lemma_filter_contains_rev, Seq::lemma_filter_contains, Seq::lemma_filter_pred;

    let todo_p = has_status(TaskStatus::Todo);
    let done_p = has_status(TaskStatus::Done);
    assert forall|t: Task| s.tasks.contains(t) implies #[trigger] s.todo().contains(t)
        || s.done().contains(t) by {
        let i = choose|i: int| 0 <= i < s.tasks.len() && s.tasks[i] == t;
        if t.status == TaskStatus::Todo {
            assert(todo_p(s.tasks[i]));
        } else {
            assert(done_p(s.tasks[i]));
        }
    }
    assert(s.todo().to_set() + s.done().to_set() =~= s.tasks.to_set());
    assert forall|t: Task| #[trigger] s.todo().contains(t) implies !s.done().contains(t) by {
        if s.done().contains(t) {
            let i = choose|i: int| 0 <= i < s.todo().len() && s.todo()[i] == t;
            let j = choose|j: int| 0 <= j < s.done().len() && s.done()[j] == t;
            assert(todo_p(s.todo()[i]));
            assert(done_p(s.done()[j]));
        }
    }
    lemma_filter_is_subsequence(s.tasks, todo_p);
    lemma_filter_is_subsequence(s.tasks, done_p);
}

/// Clearing removes exactly the completed tasks: none is left, the pending
/// ones are as they were, and the number removed is the number completed.
pub proof fn lemma_clear_done_counts(s: StoreView)
    ensures
        s.clear_done().done().len() == 0,
        s.clear_done().todo() == s.todo(),
        s.tasks.len() - s.clear_done().tasks.len() == s.done().len(),
{
    broadcast use Seq::lemma_filter_pred;

    let todo_p = has_status(TaskStatus::Todo);
    let done_p = has_status(TaskStatus::Done);
    let kept = s.todo();
    assert forall|i: int| 0 <= i < kept.len() implies todo_p(#[trigger] kept[i]) by {}
    lemma_filter_keeps_all(kept, todo_p);
    assert(kept.all(|t: Task| !done_p(t)));
    kept.lemma_all_neg_filter_empty(done_p);
    lemma_status_split_len(s.tasks);
}

} // verus!
