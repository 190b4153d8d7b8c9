use vstd::prelude::*;
use crate::task::{opt_tag_views, parsed_uuid, uuid_text, Priority, Status, Task, TaskId, TaskView};
use crate::timestamp::{parsed_rfc3339, rfc3339_text, Timestamp};
use crate::storage::StoreError;

verus! {

/// One row of the tasks table, every column as text.
#[derive(Debug)]
pub struct TaskRow {
    pub id: String,
    pub description: String,
    pub priority: String,
    pub status: Option<String>,
    pub due_date: String,
    pub created_at: String,
    pub updated_at: String,
}

/// One row of the tag table.
#[derive(Debug)]
pub struct TagRow {
    pub task_id: String,
    pub tag: String,
}

pub struct TaskRowView {
    pub id: Seq<char>,
    pub description: Seq<char>,
    pub priority: Seq<char>,
    pub status: Option<Seq<char>>,
    pub due_date: Seq<char>,
    pub created_at: Seq<char>,
    pub updated_at: Seq<char>,
}

pub open spec fn opt_text(s: Option<String>) -> Option<Seq<char>> {
    match s {
        Some(t) => Some(t@),
        None => None,
    }
}

impl View for TaskRow {
    type V = TaskRowView;

    open spec fn view(&self) -> TaskRowView {
        TaskRowView {
            id: self.id@,
            description: self.description@,
            priority: self.priority@,
            status: opt_text(self.status),
            due_date: self.due_date@,
            created_at: self.created_at@,
            updated_at: self.updated_at@,
        }
    }
}

impl View for TagRow {
    type V = (Seq<char>, Seq<char>);

    open spec fn view(&self) -> (Seq<char>, Seq<char>) {
        (self.task_id@, self.tag@)
    }
}

pub open spec fn priority_label(p: Priority) -> Seq<char> {
    match p {
        Priority::High => seq!['H', 'i', 'g', 'h'],
        Priority::Medium => seq!['M', 'e', 'd', 'i', 'u', 'm'],
        Priority::Low => seq!['L', 'o', 'w'],
    }
}

pub open spec fn status_label(s: Status) -> Seq<char> {
    match s {
        Status::Completed => seq!['C', 'o', 'm', 'p', 'l', 'e', 't', 'e', 'd'],
        Status::NotStarted => seq!['N', 'o', 't', 'S', 't', 'a', 'r', 't', 'e', 'd'],
        Status::InProgress => seq!['I', 'n', 'P', 'r', 'o', 'g', 'r', 'e', 's', 's'],
        Status::Canceled => seq!['C', 'a', 'n', 'c', 'e', 'l', 'e', 'd'],
    }
}

pub open spec fn priority_of_label(s: Seq<char>) -> Option<Priority> {
    if s == priority_label(Priority::High) {
        Some(Priority::High)
    } else if s == priority_label(Priority::Medium) {
        Some(Priority::Medium)
    } else if s == priority_label(Priority::Low) {
        Some(Priority::Low)
    } else {
        None
    }
}

pub open spec fn status_of_label(s: Seq<char>) -> Option<Status> {
    if s == status_label(Status::Completed) {
        Some(Status::Completed)
    } else if s == status_label(Status::NotStarted) {
        Some(Status::NotStarted)
    } else if s == status_label(Status::InProgress) {
        Some(Status::InProgress)
    } else if s == status_label(Status::Canceled) {
        Some(Status::Canceled)
    } else {
        None
    }
}

pub open spec fn status_text(s: Option<Status>) -> Option<Seq<char>> {
    match s {
        Some(st) => Some(status_label(st)),
        None => None,
    }
}

/// The row that records a task (its tags go to the tag table).
pub open spec fn encode(t: TaskView) -> TaskRowView {
    TaskRowView {
        id: uuid_text(t.id),
        description: t.description,
        priority: priority_label(t.priority),
        status: status_text(t.status),
        due_date: rfc3339_text(t.due_date.secs, t.due_date.nanos),
        created_at: rfc3339_text(t.created_at.secs, t.created_at.nanos),
        updated_at: rfc3339_text(t.updated_at.secs, t.updated_at.nanos),
    }
}

/// The task that a row and its tags record, if every column reads back.
pub open spec fn decode(r: TaskRowView, tags: Option<Seq<Seq<char>>>) -> Option<TaskView> {
    let status_ok = match r.status {
        Some(text) => status_of_label(text) is Some,
        None => true,
    };
    if parsed_uuid(r.id) is Some && priority_of_label(r.priority) is Some && status_ok
        && parsed_rfc3339(r.due_date) is Some && parsed_rfc3339(r.created_at) is Some
        && parsed_rfc3339(r.updated_at) is Some {
        Some(
            TaskView {
                id: parsed_uuid(r.id)->0,
                description: r.description,
                tags,
                status: match r.status {
                    Some(text) => status_of_label(text),
                    None => None,
                },
                priority: priority_of_label(r.priority)->0,
                due_date: Timestamp::from_pair(parsed_rfc3339(r.due_date)->0),
                created_at: Timestamp::from_pair(parsed_rfc3339(r.created_at)->0),
                updated_at: Timestamp::from_pair(parsed_rfc3339(r.updated_at)->0),
            },
        )
    } else {
        None
    }
}

/// Whether two texts are equal.
pub fn same_text(a: &str, b: &str) -> (r: bool)
    ensures
        r == (a@ == b@),
{
    a.to_owned() == b.to_owned()
}

/// The label that records a priority.
pub fn priority_to_string(priority: &Priority) -> (r: &'static str)
    ensures
        r@ == priority_label(*priority),
{
    proof {
        reveal_strlit("High");
        reveal_strlit("Medium");
        reveal_strlit("Low");
    }
    match priority {
        Priority::High => "High",
        Priority::Medium => "Medium",
        Priority::Low => "Low",
    }
}

/// The priority that a label records; `None` for any other text.
pub fn string_to_priority(s: &str) -> (r: Option<Priority>)
    ensures
        r == priority_of_label(s@),
{
    proof {
        reveal_strlit("High");
        reveal_strlit("Medium");
        reveal_strlit("Low");
        assert("High"@ =~= priority_label(Priority::High));
        assert("Medium"@ =~= priority_label(Priority::Medium));
        assert("Low"@ =~= priority_label(Priority::Low));
    }
    if same_text(s, "High") {
        Some(Priority::High)
    } else if same_text(s, "Medium") {
        Some(Priority::Medium)
    } else if same_text(s, "Low") {
        Some(Priority::Low)
    } else {
        None
    }
}

/// The label that records a status.
pub fn status_to_string(status: &Status) -> (r: &'static str)
    ensures
        r@ == status_label(*status),
{
    proof {
        reveal_strlit("Completed");
        reveal_strlit("NotStarted");
        reveal_strlit("InProgress");
        reveal_strlit("Canceled");
    }
    match status {
        Status::Completed => "Completed",
        Status::NotStarted => "NotStarted",
        Status::InProgress => "InProgress",
        Status::Canceled => "Canceled",
    }
}

/// The status that a label records; `None` for any other text.
pub fn string_to_status(s: &str) -> (r: Option<Status>)
    ensures
        r == status_of_label(s@),
{
    proof {
        reveal_strlit("Completed");
        reveal_strlit("NotStarted");
        reveal_strlit("InProgress");
        reveal_strlit("Canceled");
        assert("Completed"@ =~= status_label(Status::Completed));
        assert("NotStarted"@ =~= status_label(Status::NotStarted));
        assert("InProgress"@ =~= status_label(Status::InProgress));
        assert("Canceled"@ =~= status_label(Status::Canceled));
    }
    if same_text(s, "Completed") {
        Some(Status::Completed)
    } else if same_text(s, "NotStarted") {
        Some(Status::NotStarted)
    } else if same_text(s, "InProgress") {
        Some(Status::InProgress)
    } else if same_text(s, "Canceled") {
        Some(Status::Canceled)
    } else {
        None
    }
}

/// The row that records the task; it reads back as the same task.
pub fn encode_row(task: &Task) -> (r: TaskRow)
    requires
        task.due_date.is_valid(),
        task.created_at.is_valid(),
        task.updated_at.is_valid(),
    ensures
        r@ == encode(task@),
        decode(r@, task@.tags) == Some(task@),
{
    let status = match &task.status {
        Some(s) => Some(status_to_string(s).to_owned()),
        None => None,
    };
    let r = TaskRow {
        id: task.id.to_text(),
        description: task.description.clone(),
        priority: priority_to_string(&task.priority).to_owned(),
        status,
        due_date: task.due_date.to_rfc3339(),
        created_at: task.created_at.to_rfc3339(),
        updated_at: task.updated_at.to_rfc3339(),
    };
    proof {
        reveal_strlit("High");
        reveal_strlit("Medium");
        reveal_strlit("Low");
        assert(priority_of_label(priority_label(task.priority)) == Some(task.priority));
        match task.status {
            Some(st) => {
                assert(status_of_label(status_label(st)) == Some(st));
            },
            None => {},
        }
    }
    r
}

/// The task that a row and its tags record, or `CorruptRecord` when a
/// column does not read back (an identifier, a label or a timestamp).
pub fn decode_row(row: &TaskRow, tags: Option<Vec<String>>) -> (r: Result<Task, StoreError>)
    ensures
        match decode(row@, opt_tag_views(tags)) {
            Some(t) => r is Ok && r->Ok_0@ == t,
            None => r == Err::<Task, StoreError>(StoreError::CorruptRecord),
        },
{
    let id = match TaskId::parse_str(row.id.as_str()) {
        Some(id) => id,
        None => return Err(StoreError::CorruptRecord),
    };
    let priority = match string_to_priority(row.priority.as_str()) {
        Some(p) => p,
        None => return Err(StoreError::CorruptRecord),
    };
    let status = match &row.status {
        Some(text) => match string_to_status(text.as_str()) {
            Some(s) => Some(s),
            None => return Err(StoreError::CorruptRecord),
        },
        None => None,
    };
    let due_date = match Timestamp::parse_rfc3339(row.due_date.as_str()) {
        Some(t) => t,
        None => return Err(StoreError::CorruptRecord),
    };
    let created_at = match Timestamp::parse_rfc3339(row.created_at.as_str()) {
        Some(t) => t,
        None => return Err(StoreError::CorruptRecord),
    };
    let updated_at = match Timestamp::parse_rfc3339(row.updated_at.as_str()) {
        Some(t) => t,
        None => return Err(StoreError::CorruptRecord),
    };
    Ok(
        Task {
            id,
            description: row.description.clone(),
            tags,
            status,
            priority,
            due_date,
            created_at,
            updated_at,
        },
    )
}

} // verus!
