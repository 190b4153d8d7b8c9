use task_cli::row::{priority_to_string, status_to_string, string_to_priority, string_to_status};
use task_cli::task::{Priority, Status, Task, TaskEdit, TaskId};
use task_cli::timestamp::Timestamp;

fn at(secs: i64) -> Timestamp {
    Timestamp { secs, nanos: 0 }
}

#[test]
fn defaults_when_nothing_given() {
    let now = Timestamp { secs: 1704164645, nanos: 42 };
    let task = Task::create(TaskId { value: 1 }, now, "plain", None, None, None, None);
    assert_eq!(task.priority, Priority::Medium);
    assert_eq!(task.due_date, Timestamp { secs: 1704164645 + 86400, nanos: 42 });
    assert_eq!(task.created_at, now);
    assert_eq!(task.updated_at, now);
    assert_eq!(task.tags, None);
    assert_eq!(task.status, None);
}

#[test]
fn new_task_defaults() {
    let task = Task::new("fresh", None, None, None, None);
    assert_eq!(task.priority, Priority::Medium);
    assert_eq!(task.due_date.secs, task.created_at.secs + 86400);
    assert_eq!(task.updated_at, task.created_at);
    let other = Task::new("fresh", None, None, None, None);
    assert_ne!(task.id, other.id);
    let given = Task::new("given", Some(vec!["a".to_string()]), Some(Status::Canceled), Some(Priority::Low), Some(at(5)));
    assert_eq!(given.due_date, at(5));
    assert_eq!(given.priority, Priority::Low);
    assert_eq!(given.status, Some(Status::Canceled));
    assert_eq!(given.tags, Some(vec!["a".to_string()]));
}

#[test]
fn priority_default_is_medium() {
    assert_eq!(Priority::default(), Priority::Medium);
}

#[test]
fn setters_refresh_updated_at() {
    let mut task = Task::create(TaskId { value: 1 }, at(100), "a", None, None, None, None);
    task.set_priority(Priority::High);
    assert_eq!(task.priority, Priority::High);
    assert!(task.updated_at.secs >= 100);
    task.set_due_date(at(7));
    assert_eq!(task.due_date, at(7));
    task.set_status(Some(Status::InProgress));
    assert_eq!(task.status, Some(Status::InProgress));
    task.set_description("b");
    assert_eq!(task.description, "b");
    assert_eq!(task.created_at, at(100));
}

#[test]
fn touch_never_goes_before_creation() {
    let mut task = Task::create(TaskId { value: 1 }, at(100), "a", None, None, None, None);
    task.touch_at(at(50));
    assert_eq!(task.updated_at, at(100));
    task.touch_at(at(150));
    assert_eq!(task.updated_at, at(150));
}

#[test]
fn add_and_remove_tags() {
    let mut task = Task::create(TaskId { value: 1 }, at(100), "a", None, None, None, None);
    task.add_tag("x");
    task.add_tag("y");
    task.add_tag("x");
    assert_eq!(task.tags, Some(vec!["x".to_string(), "y".to_string(), "x".to_string()]));
    task.remove_tag("x");
    assert_eq!(task.tags, Some(vec!["y".to_string()]));
    task.remove_tag("y");
    assert_eq!(task.tags, None);
    task.touch_at(at(100));
    task.remove_tag("z");
    assert_eq!(task.tags, None);
    assert_eq!(task.updated_at, at(100));
}

#[test]
fn set_tags_normalizes_empty() {
    let mut task = Task::create(TaskId { value: 1 }, at(100), "a", None, None, None, None);
    task.set_tags(vec!["q".to_string()]);
    assert_eq!(task.tags, Some(vec!["q".to_string()]));
    task.set_tags(vec![]);
    assert_eq!(task.tags, None);
}

#[test]
fn labels_round_trip() {
    for p in [Priority::High, Priority::Medium, Priority::Low] {
        assert_eq!(string_to_priority(priority_to_string(&p)), Some(p));
    }
    for s in [Status::Completed, Status::NotStarted, Status::InProgress, Status::Canceled] {
        assert_eq!(string_to_status(status_to_string(&s)), Some(s));
    }
    assert_eq!(priority_to_string(&Priority::Medium), "Medium");
    assert_eq!(status_to_string(&Status::NotStarted), "NotStarted");
    assert_eq!(string_to_priority("high"), None);
    assert_eq!(string_to_status("Done"), None);
}

#[test]
fn clone_copies_every_field() {
    let task = Task::create(TaskId { value: 9 }, at(100), "a", Some(vec!["t".to_string()]), Some(Status::Completed), Some(Priority::High), None);
    let copy = task.clone();
    assert_eq!(copy.id, task.id);
    assert_eq!(copy.description, task.description);
    assert_eq!(copy.tags, task.tags);
    assert_eq!(copy.status, task.status);
    assert_eq!(copy.priority, task.priority);
    assert_eq!(copy.due_date, task.due_date);
}

#[test]
fn edits_replace_given_fields() {
    let mut task = Task::create(TaskId { value: 1 }, at(100), "a", Some(vec!["t".to_string()]), None, None, None);
    let empty = TaskEdit { description: None, priority: None, status: None, tags: None, due_date: None };
    task.apply_edit(empty);
    assert_eq!(task.updated_at, at(100));
    assert_eq!(task.description, "a");
    let edit = TaskEdit {
        description: Some("b".to_string()),
        priority: Some(Priority::High),
        status: Some(Status::InProgress),
        tags: Some(vec![]),
        due_date: Some(at(9)),
    };
    task.apply_edit(edit);
    assert_eq!(task.description, "b");
    assert_eq!(task.priority, Priority::High);
    assert_eq!(task.status, Some(Status::InProgress));
    assert_eq!(task.tags, None);
    assert_eq!(task.due_date, at(9));
    assert_eq!(task.created_at, at(100));
}
