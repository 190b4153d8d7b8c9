use task_cli::row::{decode_row, encode_row, TagRow, TaskRow};
use task_cli::storage::{Completion, StoreError, TaskStorage};
use task_cli::task::{Priority, Status, Task, TaskId};
use task_cli::timestamp::Timestamp;

fn at(secs: i64) -> Timestamp {
    Timestamp { secs, nanos: 0 }
}

fn tags(list: &[&str]) -> Option<Vec<String>> {
    Some(list.iter().map(|t| t.to_string()).collect())
}

fn sorted(mut v: Vec<String>) -> Vec<String> {
    v.sort();
    v
}

#[test]
fn test_add_and_get_task() {
    let mut storage = TaskStorage::new();
    let task = Task::new("Test task", None, None, None, None);
    let task_id = task.id;

    storage.add_task(&task).unwrap();
    let retrieved = storage.get_task(&task_id);

    assert!(retrieved.is_some());
    let retrieved_task = retrieved.unwrap();
    assert_eq!(retrieved_task.description, "Test task");
    assert_eq!(retrieved_task.priority, Priority::Medium);
}

#[test]
fn test_add_task_with_tags() {
    let mut storage = TaskStorage::new();
    let task = Task::new("Task with tags", tags(&["work", "urgent"]), None, None, None);
    let task_id = task.id;

    storage.add_task(&task).unwrap();
    let retrieved = storage.get_task(&task_id).unwrap();

    let retrieved_tags = sorted(retrieved.tags.unwrap());
    let expected_tags = sorted(vec!["work".to_string(), "urgent".to_string()]);
    assert_eq!(retrieved_tags, expected_tags);
}

#[test]
fn test_update_task() {
    let mut storage = TaskStorage::new();
    let mut task = Task::new("Original description", None, None, None, None);
    let task_id = task.id;

    storage.add_task(&task).unwrap();

    task.set_description("Updated description");
    storage.update_task(&task).unwrap();

    let retrieved = storage.get_task(&task_id).unwrap();
    assert_eq!(retrieved.description, "Updated description");
}

#[test]
fn test_delete_task() {
    let mut storage = TaskStorage::new();
    let task = Task::new("Task to delete", None, None, None, None);
    let task_id = task.id;

    storage.add_task(&task).unwrap();
    storage.delete_task(&task_id);

    let retrieved = storage.get_task(&task_id);
    assert!(retrieved.is_none());
}

#[test]
fn test_get_all_tasks() {
    let mut storage = TaskStorage::new();
    let task1 = Task::new("Task 1", None, None, None, None);
    let task2 = Task::new("Task 2", None, None, None, None);

    storage.add_task(&task1).unwrap();
    storage.add_task(&task2).unwrap();

    let all_tasks = storage.get_all_tasks();
    assert_eq!(all_tasks.len(), 2);
}

#[test]
fn test_get_tasks_by_status() {
    let mut storage = TaskStorage::new();

    let mut task1 = Task::new("Task 1", None, None, None, None);
    task1.set_status(Some(Status::Completed));

    let mut task2 = Task::new("Task 2", None, None, None, None);
    task2.set_status(Some(Status::InProgress));

    let task3 = Task::new("Task 3", None, None, None, None);

    storage.add_task(&task1).unwrap();
    storage.add_task(&task2).unwrap();
    storage.add_task(&task3).unwrap();

    let completed = storage.get_tasks_by_status(&Status::Completed);
    assert_eq!(completed.len(), 1);
    assert_eq!(completed[0].description, "Task 1");
}

#[test]
fn test_get_tasks_by_priority() {
    let mut storage = TaskStorage::new();

    let mut task1 = Task::new("Task 1", None, None, None, None);
    task1.set_priority(Priority::High);

    let mut task2 = Task::new("Task 2", None, None, None, None);
    task2.set_priority(Priority::Low);

    let mut task3 = Task::new("Task 3", None, None, None, None);
    task3.set_priority(Priority::Medium);

    storage.add_task(&task1).unwrap();
    storage.add_task(&task2).unwrap();
    storage.add_task(&task3).unwrap();

    let high_priority = storage.get_tasks_by_priority(&Priority::High);
    assert_eq!(high_priority.len(), 1);
    assert_eq!(high_priority[0].description, "Task 1");

    let low_priority = storage.get_tasks_by_priority(&Priority::Low);
    assert_eq!(low_priority.len(), 1);
    assert_eq!(low_priority[0].description, "Task 2");

    let medium_priority = storage.get_tasks_by_priority(&Priority::Medium);
    assert_eq!(medium_priority.len(), 1);
}

#[test]
fn test_get_tasks_by_tag() {
    let mut storage = TaskStorage::new();

    let task1 = Task::new("Task 1", tags(&["work"]), None, None, None);
    let task2 = Task::new("Task 2", tags(&["personal"]), None, None, None);
    let task3 = Task::new("Task 3", tags(&["work", "urgent"]), None, None, None);

    storage.add_task(&task1).unwrap();
    storage.add_task(&task2).unwrap();
    storage.add_task(&task3).unwrap();

    let work_tasks = storage.get_tasks_by_tag("work");
    assert_eq!(work_tasks.len(), 2);

    let personal_tasks = storage.get_tasks_by_tag("personal");
    assert_eq!(personal_tasks.len(), 1);
}

#[test]
fn write_spec_scenario() {
    let mut storage = TaskStorage::new();
    let task = Task::new("Write spec", tags(&["rust", "database"]), None, Some(Priority::High), None);
    let id = task.id;
    storage.add_task(&task).unwrap();

    let got = storage.get_task(&id).unwrap();
    assert_eq!(got.priority, Priority::High);
    assert_eq!(sorted(got.tags.clone().unwrap()), sorted(vec!["rust".to_string(), "database".to_string()]));
    assert_eq!(got.due_date.secs, got.created_at.secs + 86400);
    assert_eq!(got.due_date.nanos, got.created_at.nanos);

    let mut changed = got.clone();
    changed.set_status(Some(Status::Completed));
    changed.set_description("Write spec v2");
    // a later clock reading for the change
    changed.touch_at(Timestamp { secs: got.created_at.secs + 5, nanos: 0 });
    storage.update_task(&changed).unwrap();

    let got2 = storage.get_task(&id).unwrap();
    assert_eq!(got2.description, "Write spec v2");
    assert_eq!(got2.status, Some(Status::Completed));
    assert_eq!(got2.tags, got.tags);
    assert_eq!(got2.priority, Priority::High);
    assert!(got2.updated_at.secs > task.created_at.secs);

    storage.delete_task(&id);
    assert!(storage.get_task(&id).is_none());
    assert!(storage.get_tasks_by_tag("rust").iter().all(|t| t.id != id));
}

#[test]
fn three_priorities_scenario() {
    let mut storage = TaskStorage::new();
    for (name, p) in [("a", Priority::High), ("b", Priority::Medium), ("c", Priority::Low)] {
        storage.add_task(&Task::new(name, None, None, Some(p), None)).unwrap();
    }
    let medium = storage.get_tasks_by_priority(&Priority::Medium);
    assert_eq!(medium.len(), 1);
    assert_eq!(medium[0].description, "b");
    assert_eq!(medium[0].priority, Priority::Medium);
}

#[test]
fn round_trip_keeps_every_field() {
    let mut storage = TaskStorage::new();
    let mut task = Task::create(
        TaskId { value: 0x0123_4567_89ab_cdef_0011_2233_4455_6677 },
        Timestamp { secs: 1704164645, nanos: 120000000 },
        "Pay rent",
        tags(&["home", "money"]),
        Some(Status::InProgress),
        Some(Priority::Low),
        Some(at(1771113600)),
    );
    task.touch_at(Timestamp { secs: 1704164700, nanos: 7 });
    storage.add_task(&task).unwrap();
    let got = storage.get_task(&task.id).unwrap();
    assert_eq!(got.id, task.id);
    assert_eq!(got.description, task.description);
    assert_eq!(got.tags, task.tags);
    assert_eq!(got.status, task.status);
    assert_eq!(got.priority, task.priority);
    assert_eq!(got.due_date, task.due_date);
    assert_eq!(got.created_at, task.created_at);
    assert_eq!(got.updated_at, task.updated_at);
}

#[test]
fn update_replaces_rather_than_merges() {
    let mut storage = TaskStorage::new();
    let id = TaskId { value: 7 };
    let task = Task::create(id, at(1000), "first", tags(&["x", "y"]), Some(Status::NotStarted), None, None);
    storage.add_task(&task).unwrap();

    let mut next = task.clone();
    next.tags = tags(&["z"]);
    next.status = None;
    next.priority = Priority::High;
    next.due_date = at(5000);
    next.updated_at = at(2000);
    storage.update_task(&next).unwrap();

    let got = storage.get_task(&id).unwrap();
    assert_eq!(got.tags, tags(&["z"]));
    assert_eq!(got.status, None);
    assert_eq!(got.priority, Priority::High);
    assert_eq!(got.due_date, at(5000));
    assert_eq!(got.updated_at, at(2000));
    assert_eq!(got.created_at, at(1000));
    assert!(storage.get_tasks_by_tag("x").is_empty());
}

#[test]
fn update_of_unknown_id_changes_nothing() {
    let mut storage = TaskStorage::new();
    let task = Task::create(TaskId { value: 1 }, at(10), "kept", None, None, None, None);
    storage.add_task(&task).unwrap();
    let stranger = Task::create(TaskId { value: 2 }, at(10), "other", None, None, None, None);
    assert_eq!(storage.update_task(&stranger), Ok(()));
    assert_eq!(storage.len(), 1);
    assert!(storage.get_task(&TaskId { value: 2 }).is_none());
    assert_eq!(storage.get_task(&TaskId { value: 1 }).unwrap().description, "kept");
}

#[test]
fn update_keeps_creation_time() {
    let mut storage = TaskStorage::new();
    let task = Task::create(TaskId { value: 3 }, at(100), "t", None, None, None, None);
    storage.add_task(&task).unwrap();
    let mut other = task.clone();
    other.created_at = at(999);
    storage.update_task(&other).unwrap();
    assert_eq!(storage.get_task(&TaskId { value: 3 }).unwrap().created_at, at(100));
}

#[test]
fn delete_removes_tag_rows() {
    let mut storage = TaskStorage::new();
    let a = Task::create(TaskId { value: 10 }, at(100), "a", tags(&["t1", "t2"]), None, None, None);
    let b = Task::create(TaskId { value: 11 }, at(200), "b", tags(&["t1"]), None, None, None);
    storage.add_task(&a).unwrap();
    storage.add_task(&b).unwrap();
    assert_eq!(storage.tag_rows().len(), 3);
    storage.delete_task(&a.id);
    let rows = storage.tag_rows();
    assert_eq!(rows.len(), 1);
    assert_eq!(rows[0].tag, "t1");
    assert_eq!(rows[0].task_id, "00000000-0000-0000-0000-00000000000b");
    // deleting an unknown identifier is no error
    storage.delete_task(&TaskId { value: 99 });
    assert_eq!(storage.len(), 1);
}

#[test]
fn status_filter_skips_tasks_without_status() {
    let mut storage = TaskStorage::new();
    storage.add_task(&Task::create(TaskId { value: 1 }, at(1), "none", None, None, None, None)).unwrap();
    storage
        .add_task(&Task::create(TaskId { value: 2 }, at(2), "started", None, Some(Status::NotStarted), None, None))
        .unwrap();
    for s in [Status::Completed, Status::NotStarted, Status::InProgress, Status::Canceled] {
        assert!(storage.get_tasks_by_status(&s).iter().all(|t| t.status.is_some()));
    }
    let not_started = storage.get_tasks_by_status(&Status::NotStarted);
    assert_eq!(not_started.len(), 1);
    assert_eq!(not_started[0].description, "started");
}

#[test]
fn tag_filter_is_exact() {
    let mut storage = TaskStorage::new();
    storage.add_task(&Task::create(TaskId { value: 1 }, at(1), "a", tags(&["Work"]), None, None, None)).unwrap();
    storage.add_task(&Task::create(TaskId { value: 2 }, at(2), "b", tags(&["work"]), None, None, None)).unwrap();
    storage.add_task(&Task::create(TaskId { value: 3 }, at(3), "c", None, None, None, None)).unwrap();
    let work = storage.get_tasks_by_tag("work");
    assert_eq!(work.len(), 1);
    assert_eq!(work[0].description, "b");
    assert!(storage.get_tasks_by_tag("wor").is_empty());
}

#[test]
fn all_tasks_newest_first() {
    let mut storage = TaskStorage::new();
    for (v, secs) in [(1u128, 300i64), (2, 100), (3, 500), (4, 300), (5, 200)] {
        storage.add_task(&Task::create(TaskId { value: v }, at(secs), "t", None, None, None, None)).unwrap();
    }
    let all = storage.get_all_tasks();
    let times: Vec<i64> = all.iter().map(|t| t.created_at.secs).collect();
    assert_eq!(times, vec![500, 300, 300, 200, 100]);
    let ids: Vec<u128> = all.iter().map(|t| t.id.value).collect();
    assert_eq!(ids, vec![3, 1, 4, 5, 2]);
}

#[test]
fn duplicate_id_is_refused() {
    let mut storage = TaskStorage::new();
    let task = Task::create(TaskId { value: 5 }, at(1), "a", None, None, None, None);
    storage.add_task(&task).unwrap();
    assert_eq!(storage.add_task(&task), Err(StoreError::DuplicateId));
    assert_eq!(storage.len(), 1);
}

#[test]
fn duplicate_tag_is_refused() {
    let mut storage = TaskStorage::new();
    let task = Task::create(TaskId { value: 5 }, at(1), "a", tags(&["x", "y", "x"]), None, None, None);
    assert_eq!(storage.add_task(&task), Err(StoreError::DuplicateTag));
    assert_eq!(storage.len(), 0);
    let ok = Task::create(TaskId { value: 5 }, at(1), "a", None, None, None, None);
    storage.add_task(&ok).unwrap();
    assert_eq!(storage.update_task(&task), Err(StoreError::DuplicateTag));
    assert_eq!(storage.get_task(&ok.id).unwrap().tags, None);
}

#[test]
fn five_digit_year_is_refused() {
    let mut storage = TaskStorage::new();
    let task = Task::create(TaskId { value: 5 }, at(253402300800), "far", None, None, None, Some(at(1)));
    assert_eq!(storage.add_task(&task), Err(StoreError::InvalidTimestamp));
    let nanos = Task::create(TaskId { value: 6 }, Timestamp { secs: 1, nanos: 1_000_000_000 }, "x", None, None, None, Some(at(1)));
    assert_eq!(storage.add_task(&nanos), Err(StoreError::InvalidTimestamp));
}

#[test]
fn empty_tag_list_is_stored_as_none() {
    let mut storage = TaskStorage::new();
    let task = Task::create(TaskId { value: 8 }, at(1), "a", Some(vec![]), None, None, None);
    storage.add_task(&task).unwrap();
    assert_eq!(storage.get_task(&task.id).unwrap().tags, None);
}

#[test]
fn rows_use_canonical_text() {
    let task = Task::create(
        TaskId { value: 0xa1a2a3a4_b1b2_c1c2_d1d2_d3d4d5d6d7d8 },
        Timestamp { secs: 1704164645, nanos: 0 },
        "row",
        None,
        Some(Status::Canceled),
        Some(Priority::High),
        Some(Timestamp { secs: 1771113600, nanos: 500_000_000 }),
    );
    let row = encode_row(&task);
    assert_eq!(row.id, "a1a2a3a4-b1b2-c1c2-d1d2-d3d4d5d6d7d8");
    assert_eq!(row.priority, "High");
    assert_eq!(row.status.as_deref(), Some("Canceled"));
    assert_eq!(row.created_at, "2024-01-02T03:04:05+00:00");
    assert_eq!(row.due_date, "2026-02-15T00:00:00.500+00:00");
    let back = decode_row(&row, None).unwrap();
    assert_eq!(back.id, task.id);
    assert_eq!(back.due_date, task.due_date);
    assert_eq!(back.created_at, task.created_at);
    assert_eq!(back.status, Some(Status::Canceled));
}

fn row(id: &str, priority: &str, status: Option<&str>, created: &str) -> TaskRow {
    TaskRow {
        id: id.to_string(),
        description: "d".to_string(),
        priority: priority.to_string(),
        status: status.map(|s| s.to_string()),
        due_date: "2026-02-15T00:00:00+00:00".to_string(),
        created_at: created.to_string(),
        updated_at: created.to_string(),
    }
}

#[test]
fn decode_reads_offsets_and_refuses_bad_columns() {
    let good = row("A1A2A3A4-B1B2-C1C2-D1D2-D3D4D5D6D7D8", "Low", None, "2024-01-02T04:04:05+01:00");
    let t = decode_row(&good, None).unwrap();
    assert_eq!(t.id.value, 0xa1a2a3a4_b1b2_c1c2_d1d2_d3d4d5d6d7d8);
    assert_eq!(t.created_at, at(1704164645));
    assert_eq!(t.priority, Priority::Low);
    let bad_priority = row("a1a2a3a4-b1b2-c1c2-d1d2-d3d4d5d6d7d8", "Urgent", None, "2024-01-02T03:04:05+00:00");
    assert_eq!(decode_row(&bad_priority, None).err(), Some(StoreError::CorruptRecord));
    let bad_status = row("a1a2a3a4-b1b2-c1c2-d1d2-d3d4d5d6d7d8", "Low", Some("Done"), "2024-01-02T03:04:05+00:00");
    assert_eq!(decode_row(&bad_status, None).err(), Some(StoreError::CorruptRecord));
    let bad_id = row("not-a-uuid", "Low", None, "2024-01-02T03:04:05+00:00");
    assert_eq!(decode_row(&bad_id, None).err(), Some(StoreError::CorruptRecord));
    let bad_time = row("a1a2a3a4-b1b2-c1c2-d1d2-d3d4d5d6d7d8", "Low", None, "yesterday");
    assert_eq!(decode_row(&bad_time, None).err(), Some(StoreError::CorruptRecord));
}

#[test]
fn saved_rows_load_back() {
    let mut storage = TaskStorage::new();
    storage
        .add_task(&Task::create(TaskId { value: 21 }, at(100), "a", tags(&["p", "q"]), Some(Status::Completed), None, None))
        .unwrap();
    storage
        .add_task(&Task::create(TaskId { value: 22 }, Timestamp { secs: 300, nanos: 5 }, "b", None, None, Some(Priority::High), None))
        .unwrap();
    let loaded = TaskStorage::load(&storage.task_rows(), &storage.tag_rows()).unwrap();
    let before = storage.get_all_tasks();
    let after = loaded.get_all_tasks();
    assert_eq!(before.len(), after.len());
    for (x, y) in before.iter().zip(after.iter()) {
        assert_eq!(x.id, y.id);
        assert_eq!(x.description, y.description);
        assert_eq!(x.tags, y.tags);
        assert_eq!(x.status, y.status);
        assert_eq!(x.priority, y.priority);
        assert_eq!(x.due_date, y.due_date);
        assert_eq!(x.created_at, y.created_at);
        assert_eq!(x.updated_at, y.updated_at);
    }
}

#[test]
fn load_sorts_and_attaches_tags() {
    let rows = vec![
        row("00000000-0000-0000-0000-000000000001", "Low", None, "2024-01-01T00:00:00+00:00"),
        row("00000000-0000-0000-0000-000000000002", "High", Some("InProgress"), "2024-06-01T00:00:00+00:00"),
    ];
    let tag_rows = vec![
        TagRow { task_id: "00000000-0000-0000-0000-000000000001".to_string(), tag: "old".to_string() },
        TagRow { task_id: "00000000-0000-0000-0000-000000000009".to_string(), tag: "orphan".to_string() },
    ];
    let storage = TaskStorage::load(&rows, &tag_rows).unwrap();
    let all = storage.get_all_tasks();
    assert_eq!(all.len(), 2);
    assert_eq!(all[0].id.value, 2);
    assert_eq!(all[0].tags, None);
    assert_eq!(all[1].tags, tags(&["old"]));
    assert_eq!(storage.tag_rows().len(), 1);

    let corrupt = vec![row("00000000-0000-0000-0000-000000000001", "Lowest", None, "2024-01-01T00:00:00+00:00")];
    assert_eq!(TaskStorage::load(&corrupt, &tag_rows).err(), Some(StoreError::CorruptRecord));
    let first = || row("00000000-0000-0000-0000-000000000001", "Low", None, "2024-01-01T00:00:00+00:00");
    let twice = vec![first(), first()];
    assert_eq!(TaskStorage::load(&twice, &vec![]).err(), Some(StoreError::DuplicateId));
}

#[test]
fn completing_a_task() {
    let mut storage = TaskStorage::new();
    let task = Task::create(TaskId { value: 31 }, at(100), "finish", tags(&["k"]), None, Some(Priority::Low), None);
    storage.add_task(&task).unwrap();
    match storage.complete_task(&task.id).unwrap() {
        Completion::Completed(t) => assert_eq!(t.status, Some(Status::Completed)),
        other => panic!("unexpected {:?}", other),
    }
    let stored = storage.get_task(&task.id).unwrap();
    assert_eq!(stored.status, Some(Status::Completed));
    assert_eq!(stored.tags, tags(&["k"]));
    assert!(matches!(storage.complete_task(&task.id), Ok(Completion::AlreadyCompleted(_))));
    assert!(matches!(storage.complete_task(&TaskId { value: 32 }), Ok(Completion::NotFound)));
}
