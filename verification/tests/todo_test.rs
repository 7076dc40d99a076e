use tasky::timestamp::Timestamp;
use tasky::todo::{PriorityLevel, Todo};

fn stamp(secs: i64) -> Timestamp {
    Timestamp { secs, nanos: 0 }
}

#[test]
fn todo_equality() {
    let ts = stamp(1_700_000_000);
    let a = Todo {
        id: 1,
        content: "买菜".to_string(),
        completed: false,
        created_at: ts,
        priority: 0,
        completed_at: None,
        tags: vec![],
    };
    let b = Todo {
        id: 1,
        content: "买菜".to_string(),
        completed: false,
        created_at: ts,
        priority: 0,
        completed_at: None,
        tags: vec![],
    };
    assert_eq!(a, b);
}

#[test]
fn todo_from_str() {
    let todo = Todo::from("买菜");
    assert_eq!(todo.content, "买菜");
    assert_eq!(todo.id, 0);
    assert_eq!(todo.priority, 0);
    assert!(!todo.completed);
    assert!(todo.tags.is_empty());

    let todo2: Todo = "写周报".into();
    assert_eq!(todo2.content, "写周报");
}

#[test]
fn new_at_builds_pending_task() {
    let t = Todo::new_at(7, "write".to_string(), 2, vec!["a".to_string()], stamp(5));
    assert_eq!(t.id, 7);
    assert_eq!(t.content, "write");
    assert!(!t.completed);
    assert_eq!(t.created_at, stamp(5));
    assert_eq!(t.priority, 2);
    assert_eq!(t.completed_at, None);
    assert_eq!(t.tags, vec!["a".to_string()]);
}

#[test]
fn new_is_pending_with_no_completion() {
    let t = Todo::new(3, "x".to_string(), 1, vec![]);
    assert_eq!(t.id, 3);
    assert!(!t.completed);
    assert_eq!(t.completed_at, None);
    assert_eq!(t.priority, 1);
}

#[test]
fn priority_levels() {
    assert_eq!(PriorityLevel::of(0), PriorityLevel::Normal);
    assert_eq!(PriorityLevel::of(1), PriorityLevel::High);
    assert_eq!(PriorityLevel::of(2), PriorityLevel::Urgent);
    assert_eq!(PriorityLevel::of(3), PriorityLevel::Normal);
    assert_eq!(PriorityLevel::of(255), PriorityLevel::Normal);
}

#[test]
fn display_line_of_pending_task() {
    let t = Todo::new_at(12, "买菜".to_string(), 0, vec![], stamp(0));
    assert_eq!(t.to_string(), "[12] \u{2b55}   买菜");
}

#[test]
fn display_line_of_done_urgent_task_with_tags() {
    let mut t = Todo::new_at(
        1,
        "report".to_string(),
        2,
        vec!["work".to_string(), "q3".to_string()],
        stamp(0),
    );
    t.completed = true;
    assert_eq!(t.to_string(), "[1] \u{2705} !! report [work, q3]");
}

#[test]
fn display_line_of_high_task() {
    let t = Todo::new_at(4294967295, "z".to_string(), 1, vec!["solo".to_string()], stamp(0));
    assert_eq!(t.to_string(), "[4294967295] \u{2b55} ! z [solo]");
}
