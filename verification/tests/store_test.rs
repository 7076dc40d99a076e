use tasky::query::{list, SortOrder};
use tasky::store::{
    add, add_at, clear_completed, count_completed, edit, mark_done, mark_done_at, next_id,
    position_of, remove,
};
use tasky::timestamp::Timestamp;
use tasky::todo::Todo;

fn stamp(secs: i64) -> Timestamp {
    Timestamp { secs, nanos: 0 }
}

fn task(id: u32, content: &str) -> Todo {
    Todo::new_at(id, content.to_string(), 0, vec![], stamp(id as i64))
}

#[test]
fn test_add_and_list() {
    let mut todos: Vec<Todo> = Vec::new();
    let id = add(&mut todos, "测试任务".to_string(), 0, vec![]);
    assert_eq!(id, 1);
    let shown = list(&todos, false, None, None, SortOrder::Id);
    assert_eq!(shown, vec![0]);
    assert_eq!(todos[shown[0]].content, "测试任务");
}

#[test]
fn test_done_marks_completed() {
    let mut todos: Vec<Todo> = Vec::new();
    let id = add(&mut todos, "完成任务".to_string(), 0, vec![]);
    assert_eq!(id, 1);
    assert!(mark_done(&mut todos, 1, false));
    assert!(todos[0].completed);
    assert!(todos[0].completed_at.is_some());
    assert!(list(&todos, false, None, None, SortOrder::Id).is_empty());
}

#[test]
fn test_remove_nonexistent() {
    let mut todos: Vec<Todo> = Vec::new();
    assert!(!remove(&mut todos, 99));
    assert!(todos.is_empty());
}

#[test]
fn test_clear_removes_completed() {
    let mut todos: Vec<Todo> = Vec::new();
    add(&mut todos, "将被清理".to_string(), 0, vec![]);
    assert!(mark_done(&mut todos, 1, false));
    assert_eq!(clear_completed(&mut todos), 1);
    assert!(list(&todos, true, None, None, SortOrder::Id).is_empty());
}

#[test]
fn ids_count_up_from_the_largest() {
    let mut todos: Vec<Todo> = Vec::new();
    assert_eq!(next_id(&todos), Some(1));
    assert_eq!(add_at(&mut todos, "a".to_string(), 0, vec![], stamp(1)), 1);
    assert_eq!(add_at(&mut todos, "b".to_string(), 0, vec![], stamp(2)), 2);
    assert!(remove(&mut todos, 1));
    assert_eq!(add_at(&mut todos, "c".to_string(), 0, vec![], stamp(3)), 3);
    todos.push(task(10, "d"));
    assert_eq!(next_id(&todos), Some(11));
    assert_eq!(todos[0].content, "b");
    assert_eq!(todos[1].id, 3);
}

#[test]
fn next_id_overflow_is_none() {
    let todos = vec![task(5, "a"), task(u32::MAX, "b")];
    assert_eq!(next_id(&todos), None);
    let todos = vec![task(u32::MAX - 1, "a")];
    assert_eq!(next_id(&todos), Some(u32::MAX));
}

#[test]
fn done_at_then_undo_restores() {
    let mut todos = vec![task(1, "a"), task(2, "b"), task(2, "second two")];
    let before = todos.clone();
    assert!(mark_done_at(&mut todos, 2, false, stamp(99)));
    assert!(todos[1].completed);
    assert_eq!(todos[1].completed_at, Some(stamp(99)));
    assert!(!todos[2].completed);
    assert!(mark_done_at(&mut todos, 2, true, stamp(5)));
    assert_eq!(todos, before);
}

#[test]
fn done_unknown_id_changes_nothing() {
    let mut todos = vec![task(1, "a")];
    let before = todos.clone();
    assert!(!mark_done(&mut todos, 9, false));
    assert!(!mark_done_at(&mut todos, 9, true, stamp(1)));
    assert_eq!(todos, before);
}

#[test]
fn undo_clears_completion_time() {
    let mut todos = vec![task(1, "a")];
    assert!(mark_done(&mut todos, 1, false));
    assert!(mark_done(&mut todos, 1, true));
    assert!(!todos[0].completed);
    assert_eq!(todos[0].completed_at, None);
}

#[test]
fn edit_changes_only_text() {
    let mut todos = vec![task(1, "a"), task(2, "b")];
    assert!(edit(&mut todos, 2, "新内容"));
    assert_eq!(todos[1].content, "新内容");
    assert_eq!(todos[1].id, 2);
    assert_eq!(todos[1].created_at, stamp(2));
    assert_eq!(todos[0], task(1, "a"));
    assert!(!edit(&mut todos, 3, "x"));
}

#[test]
fn remove_takes_every_task_with_the_id() {
    let mut todos = vec![task(1, "a"), task(2, "b"), task(1, "c"), task(3, "d")];
    assert!(remove(&mut todos, 1));
    assert_eq!(todos, vec![task(2, "b"), task(3, "d")]);
    assert!(!remove(&mut todos, 1));
    assert_eq!(todos.len(), 2);
}

#[test]
fn clear_keeps_pending_in_order() {
    let mut todos = vec![task(1, "a"), task(2, "b"), task(3, "c"), task(4, "d")];
    todos[0].completed = true;
    todos[2].completed = true;
    assert_eq!(count_completed(&todos), 2);
    assert_eq!(clear_completed(&mut todos), 2);
    assert_eq!(todos, vec![task(2, "b"), task(4, "d")]);
    assert_eq!(clear_completed(&mut todos), 0);
    assert_eq!(count_completed(&todos), 0);
}

#[test]
fn position_of_finds_first() {
    let todos = vec![task(4, "a"), task(2, "b"), task(2, "c")];
    assert_eq!(position_of(&todos, 2), Some(1));
    assert_eq!(position_of(&todos, 4), Some(0));
    assert_eq!(position_of(&todos, 5), None);
}
