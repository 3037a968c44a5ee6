use todo_list::store::{StoreError, TodoList};
use todo_list::task::{Task, TaskStatus};

fn summary(tasks: &[Task]) -> Vec<(usize, String, TaskStatus)> {
    tasks.iter().map(|t| (t.id, t.description.clone(), t.status)).collect()
}

fn ids(tasks: &[Task]) -> Vec<usize> {
    tasks.iter().map(|t| t.id).collect()
}

#[test]
fn scenario_add_done_clear() {
    let mut list = TodoList::new();
    let first = list.add_task("buy milk".to_string());
    assert_eq!(first, 1);
    assert_eq!(list.list_all()[0].status, TaskStatus::Todo);
    let second = list.add_task("pay bills".to_string());
    assert_eq!(second, 2);
    assert!(list.mark_done(1));
    assert_eq!(
        summary(&list.list_all()),
        vec![
            (1, "buy milk".to_string(), TaskStatus::Done),
            (2, "pay bills".to_string(), TaskStatus::Todo),
        ]
    );
    assert_eq!(list.clear_done(), 1);
    assert_eq!(summary(&list.list_all()), vec![(2, "pay bills".to_string(), TaskStatus::Todo)]);
    assert!(!list.mark_done(99));
    assert_eq!(list.next_id(), 3);
}

#[test]
fn new_store_is_empty_with_counter_one() {
    let list = TodoList::new();
    assert!(list.list_all().is_empty());
    assert_eq!(list.next_id(), 1);
}

#[test]
fn file_path_is_fixed() {
    assert_eq!(TodoList::get_file_path(), "tasks.json");
}

#[test]
fn task_new_starts_todo_and_toggles() {
    let mut t = Task::new(7, String::new());
    assert_eq!(t.id, 7);
    assert_eq!(t.description, "");
    assert_eq!(t.status, TaskStatus::Todo);
    t.mark_done();
    assert_eq!(t.status, TaskStatus::Done);
    t.mark_todo();
    assert_eq!(t.status, TaskStatus::Todo);
}

#[test]
fn task_clone_keeps_fields() {
    let mut t = Task::new(3, "write report".to_string());
    t.mark_done();
    let c = t.clone();
    assert_eq!(c.id, 3);
    assert_eq!(c.description, "write report");
    assert_eq!(c.status, TaskStatus::Done);
}

#[test]
fn parts_round_trip() {
    let mut list = TodoList::new();
    list.add_task("a".to_string());
    list.add_task("b".to_string());
    list.add_task("c".to_string());
    list.mark_done(2);
    list.remove_task(3);
    let before = summary(&list.list_all());
    let (tasks, next_id) = list.into_parts();
    assert_eq!(next_id, 4);
    let back = TodoList::from_parts(tasks, next_id).unwrap();
    assert_eq!(summary(&back.list_all()), before);
    assert_eq!(back.next_id(), 4);
}

#[test]
fn from_parts_rejects_zero_counter() {
    assert_eq!(TodoList::from_parts(Vec::new(), 0).err(), Some(StoreError::InvalidData));
}

#[test]
fn from_parts_rejects_zero_id() {
    let tasks = vec![Task::new(0, "x".to_string())];
    assert_eq!(TodoList::from_parts(tasks, 5).err(), Some(StoreError::InvalidData));
}

#[test]
fn from_parts_rejects_id_at_counter() {
    let tasks = vec![Task::new(1, "x".to_string()), Task::new(5, "y".to_string())];
    assert_eq!(TodoList::from_parts(tasks, 5).err(), Some(StoreError::InvalidData));
}

#[test]
fn from_parts_rejects_duplicate_id() {
    let tasks = vec![
        Task::new(2, "x".to_string()),
        Task::new(1, "y".to_string()),
        Task::new(2, "z".to_string()),
    ];
    assert_eq!(TodoList::from_parts(tasks, 3).err(), Some(StoreError::InvalidData));
}

#[test]
fn from_parts_accepts_gaps_and_any_order() {
    let tasks = vec![Task::new(4, "x".to_string()), Task::new(2, "y".to_string())];
    let list = TodoList::from_parts(tasks, 9).unwrap();
    assert_eq!(ids(&list.list_all()), vec![4, 2]);
    assert_eq!(list.next_id(), 9);
}

#[test]
fn empty_parts_with_counter_one_are_accepted() {
    let list = TodoList::from_parts(Vec::new(), 1).unwrap();
    assert!(list.list_all().is_empty());
    assert_eq!(list.next_id(), 1);
}

#[test]
fn ids_follow_additions_despite_removals() {
    let mut list = TodoList::new();
    let mut got = Vec::new();
    got.push(list.add_task("one".to_string()));
    got.push(list.add_task("two".to_string()));
    assert!(list.remove_task(2));
    got.push(list.add_task("three".to_string()));
    assert!(list.remove_task(1));
    assert!(list.mark_done(3));
    got.push(list.add_task("four".to_string()));
    assert_eq!(got, vec![1, 2, 3, 4]);
    assert_eq!(list.next_id(), 5);
}

#[test]
fn removed_id_is_not_reused() {
    let mut list = TodoList::new();
    list.add_task("a".to_string());
    let last = list.add_task("b".to_string());
    assert!(list.remove_task(last));
    let fresh = list.add_task("c".to_string());
    assert_eq!(fresh, 3);
    assert_eq!(ids(&list.list_all()), vec![1, 3]);
}

#[test]
fn remove_keeps_order_and_reports_missing() {
    let mut list = TodoList::new();
    list.add_task("a".to_string());
    list.add_task("b".to_string());
    list.add_task("c".to_string());
    assert!(list.remove_task(2));
    assert_eq!(ids(&list.list_all()), vec![1, 3]);
    assert!(!list.remove_task(2));
    assert_eq!(ids(&list.list_all()), vec![1, 3]);
}

#[test]
fn mark_done_twice_is_mark_done_once() {
    let mut once = TodoList::new();
    let mut twice = TodoList::new();
    for d in ["a", "b"] {
        once.add_task(d.to_string());
        twice.add_task(d.to_string());
    }
    assert!(once.mark_done(2));
    assert!(twice.mark_done(2));
    assert!(twice.mark_done(2));
    assert_eq!(summary(&once.list_all()), summary(&twice.list_all()));
}

#[test]
fn mark_todo_twice_is_mark_todo_once() {
    let mut list = TodoList::new();
    list.add_task("a".to_string());
    list.mark_done(1);
    assert!(list.mark_todo(1));
    let after_once = summary(&list.list_all());
    assert!(list.mark_todo(1));
    assert_eq!(summary(&list.list_all()), after_once);
    assert_eq!(after_once[0].2, TaskStatus::Todo);
    assert!(!list.mark_todo(42));
}

#[test]
fn filters_split_tasks_in_order() {
    let mut list = TodoList::new();
    for d in ["a", "b", "c", "d", "e"] {
        list.add_task(d.to_string());
    }
    list.mark_done(2);
    list.mark_done(5);
    list.mark_done(1);
    assert_eq!(ids(&list.list_todo()), vec![3, 4]);
    assert_eq!(ids(&list.list_done()), vec![1, 2, 5]);
    assert_eq!(ids(&list.list_all()), vec![1, 2, 3, 4, 5]);
}

#[test]
fn filters_on_empty_store() {
    let list = TodoList::new();
    assert!(list.list_todo().is_empty());
    assert!(list.list_done().is_empty());
}

#[test]
fn clear_done_counts_and_keeps_pending() {
    let mut list = TodoList::new();
    for d in ["a", "b", "c", "d"] {
        list.add_task(d.to_string());
    }
    list.mark_done(1);
    list.mark_done(3);
    let todo_before = summary(&list.list_todo());
    assert_eq!(list.clear_done(), 2);
    assert!(list.list_done().is_empty());
    assert_eq!(summary(&list.list_todo()), todo_before);
    assert_eq!(list.next_id(), 5);
}

#[test]
fn clear_done_with_nothing_done() {
    let mut list = TodoList::new();
    list.add_task("a".to_string());
    assert_eq!(list.clear_done(), 0);
    assert_eq!(ids(&list.list_all()), vec![1]);
}
