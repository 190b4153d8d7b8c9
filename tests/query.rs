use task_cli::query::{
    list_tasks, parse_due_date, parse_priority, parse_status, priority_from_name, search_tasks,
    split_tags, status_from_name, task_matches, InputError,
};
use task_cli::storage::TaskStorage;
use task_cli::task::{Priority, Status, Task, TaskId};
use task_cli::timestamp::Timestamp;

fn at(secs: i64) -> Timestamp {
    Timestamp { secs, nanos: 0 }
}

#[test]
fn priorities_by_name() {
    assert_eq!(parse_priority("HIGH"), Ok(Priority::High));
    assert_eq!(parse_priority("Medium"), Ok(Priority::Medium));
    assert_eq!(parse_priority("low"), Ok(Priority::Low));
    assert_eq!(parse_priority("invalid"), Err(InputError::InvalidPriority));
    assert_eq!(priority_from_name("high"), Some(Priority::High));
    assert_eq!(priority_from_name("High"), None);
}

#[test]
fn statuses_by_name() {
    assert_eq!(parse_status("completed"), Ok(Status::Completed));
    assert_eq!(parse_status("Not Started"), Ok(Status::NotStarted));
    assert_eq!(parse_status("not_started"), Ok(Status::NotStarted));
    assert_eq!(parse_status("IN_PROGRESS"), Ok(Status::InProgress));
    assert_eq!(parse_status("inprogress"), Ok(Status::InProgress));
    assert_eq!(parse_status("cancelled"), Ok(Status::Canceled));
    assert_eq!(parse_status("canceled"), Ok(Status::Canceled));
    assert_eq!(parse_status("done"), Err(InputError::InvalidStatus));
    assert_eq!(status_from_name("in progress"), Some(Status::InProgress));
}

#[test]
fn due_dates() {
    assert_eq!(parse_due_date("2026-02-15"), Ok(at(1771113600)));
    assert_eq!(parse_due_date("2024-01-02T03:04:05Z"), Ok(at(1704164645)));
    assert_eq!(parse_due_date("2024-01-02T05:04:05+02:00"), Ok(at(1704164645)));
    assert_eq!(parse_due_date("15/02/2026"), Err(InputError::InvalidDate));
}

#[test]
fn tag_lists() {
    assert_eq!(split_tags("home,urgent"), vec!["home".to_string(), "urgent".to_string()]);
    assert_eq!(split_tags(" home , urgent ,, "), vec!["home".to_string(), "urgent".to_string()]);
    assert!(split_tags(",").is_empty());
    assert!(split_tags("").is_empty());
}

fn sample() -> Vec<Task> {
    vec![
        Task::create(TaskId { value: 1 }, at(3), "Important meeting", Some(vec!["Work".to_string()]), Some(Status::InProgress), Some(Priority::High), None),
        Task::create(TaskId { value: 2 }, at(2), "important errand", Some(vec!["home".to_string()]), None, Some(Priority::High), None),
        Task::create(TaskId { value: 3 }, at(1), "Read a book", None, Some(Status::Completed), Some(Priority::Low), None),
    ]
}

#[test]
fn search_ignores_case() {
    let tasks = sample();
    let found = search_tasks(&tasks, "IMPORTANT", None, None, &vec![]);
    let ids: Vec<u128> = found.iter().map(|t| t.id.value).collect();
    assert_eq!(ids, vec![1, 2]);
    let found = search_tasks(&tasks, "important", Some("work"), Some(Priority::High), &vec![]);
    assert_eq!(found.len(), 1);
    assert_eq!(found[0].id.value, 1);
    let found = search_tasks(&tasks, "", None, None, &vec![Status::Completed, Status::InProgress]);
    let ids: Vec<u128> = found.iter().map(|t| t.id.value).collect();
    assert_eq!(ids, vec![1, 3]);
    assert!(search_tasks(&tasks, "nothing", None, None, &vec![]).is_empty());
}

#[test]
fn matching_with_folded_inputs() {
    let tasks = sample();
    assert!(task_matches(&tasks[0], "meeting", Some("work"), None, &vec![]));
    assert!(!task_matches(&tasks[0], "meeting", Some("home"), None, &vec![]));
    assert!(!task_matches(&tasks[1], "errand", None, Some(Priority::Low), &vec![]));
    assert!(!task_matches(&tasks[1], "errand", None, None, &vec![Status::NotStarted]));
}

#[test]
fn listing_by_status() {
    let mut storage = TaskStorage::new();
    for t in sample() {
        storage.add_task(&t).unwrap();
    }
    assert_eq!(list_tasks(&storage, &vec![]).len(), 3);
    let listed = list_tasks(&storage, &vec![Status::Completed, Status::InProgress]);
    let ids: Vec<u128> = listed.iter().map(|t| t.id.value).collect();
    assert_eq!(ids, vec![3, 1]);
    assert!(list_tasks(&storage, &vec![Status::Canceled]).is_empty());
}
