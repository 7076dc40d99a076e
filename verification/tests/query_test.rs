use tasky::query::{list, search, SortOrder};
use tasky::timestamp::Timestamp;
use tasky::todo::Todo;

fn task(id: u32, content: &str, priority: u8, tags: &[&str], secs: i64, nanos: u32) -> Todo {
    Todo::new_at(
        id,
        content.to_string(),
        priority,
        tags.iter().map(|s| s.to_string()).collect(),
        Timestamp { secs, nanos },
    )
}

fn sample() -> Vec<Todo> {
    let mut v = vec![
        task(1, "buy milk", 0, &["home"], 300, 0),
        task(2, "write report", 2, &["work", "q3"], 100, 5),
        task(3, "call mom", 1, &["home", "family"], 100, 1),
        task(4, "fix bug", 2, &["work"], 200, 0),
        task(5, "report taxes", 1, &[], 100, 1),
    ];
    v[3].completed = true;
    v
}

#[test]
fn sort_order_parse() {
    assert_eq!(SortOrder::parse("priority"), SortOrder::Priority);
    assert_eq!(SortOrder::parse("created"), SortOrder::Created);
    assert_eq!(SortOrder::parse("id"), SortOrder::Id);
    assert_eq!(SortOrder::parse("Priority"), SortOrder::Id);
    assert_eq!(SortOrder::parse(""), SortOrder::Id);
}

#[test]
fn default_listing_hides_done() {
    assert_eq!(list(&sample(), false, None, None, SortOrder::Id), vec![0, 1, 2, 4]);
    assert_eq!(list(&sample(), true, None, None, SortOrder::Id), vec![0, 1, 2, 3, 4]);
}

#[test]
fn priority_order_is_stable() {
    assert_eq!(list(&sample(), true, None, None, SortOrder::Priority), vec![1, 3, 2, 4, 0]);
    assert_eq!(list(&sample(), false, None, None, SortOrder::Priority), vec![1, 2, 4, 0]);
}

#[test]
fn created_order_is_stable() {
    // times: 300.0, 100.5, 100.1, 200.0, 100.1
    assert_eq!(list(&sample(), true, None, None, SortOrder::Created), vec![2, 4, 1, 3, 0]);
}

#[test]
fn priority_filter_is_strictly_above() {
    assert_eq!(list(&sample(), true, Some(1), None, SortOrder::Id), vec![1, 3]);
    assert_eq!(list(&sample(), true, Some(0), None, SortOrder::Id), vec![1, 2, 3, 4]);
    assert!(list(&sample(), true, Some(2), None, SortOrder::Id).is_empty());
}

#[test]
fn tag_filter_searches_joined_tags() {
    assert_eq!(list(&sample(), true, None, Some("home"), SortOrder::Id), vec![0, 2]);
    // "workq3" is the tags of task 2 written together
    assert_eq!(list(&sample(), true, None, Some("kq"), SortOrder::Id), vec![1]);
    assert_eq!(list(&sample(), true, None, Some("ork"), SortOrder::Id), vec![1, 3]);
    assert_eq!(list(&sample(), true, None, Some(""), SortOrder::Id), vec![0, 1, 2, 3, 4]);
    assert_eq!(list(&sample(), false, Some(0), Some("work"), SortOrder::Priority), vec![1]);
}

#[test]
fn search_by_text() {
    assert_eq!(search(&sample(), "report"), vec![1, 4]);
    assert_eq!(search(&sample(), ""), vec![0, 1, 2, 3, 4]);
    assert!(search(&sample(), "nothing").is_empty());
    assert!(search(&Vec::new(), "x").is_empty());
}
