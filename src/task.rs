use vstd::prelude::*;
use crate::timestamp::{Timestamp, SECS_PER_DAY};

verus! {

/// How important a task is.
#[derive(Clone, Copy, Debug, PartialEq, Eq, Structural)]
pub enum Priority {
    High,
    Medium,
    Low,
}

impl Default for Priority {
    fn default() -> (r: Priority)
        ensures
            r == Priority::Medium,
    {
        Priority::Medium
    }
}

/// How far a task has progressed.
#[derive(Clone, Copy, Debug, PartialEq, Eq, Structural)]
pub enum Status {
    Completed,
    NotStarted,
    InProgress,
    Canceled,
}

/// The 128-bit identifier of a task.
#[derive(Clone, Copy, Debug, PartialEq, Eq, Structural, Hash)]
pub struct TaskId {
    pub value: u128,
}

pub open spec fn hex_digit(d: int) -> char {
    seq!['0', '1', '2', '3', '4', '5', '6', '7', '8', '9', 'a', 'b', 'c', 'd', 'e', 'f'][d]
}

/// The `n` lowest hexadecimal digits of `v`, most significant first.
pub open spec fn hex_digits(v: nat, n: nat) -> Seq<char>
    decreases n,
{
    if n == 0 {
        Seq::empty()
    } else {
        hex_digits(v / 16, (n - 1) as nat).push(hex_digit((v % 16) as int))
    }
}

/// The canonical (hyphenated, lower-case) text of an identifier:
/// 32 hexadecimal digits in groups of 8, 4, 4, 4 and 12.
pub open spec fn uuid_text(v: u128) -> Seq<char> {
    let h = hex_digits(v as nat, 32);
    h.subrange(0, 8) + seq!['-'] + h.subrange(8, 12) + seq!['-'] + h.subrange(12, 16) + seq!['-']
        + h.subrange(16, 20) + seq!['-'] + h.subrange(20, 32)
}

/// The identifier that the uuid crate reads from a text, if it reads one.
pub uninterp spec fn parsed_uuid(s: Seq<char>) -> Option<u128>;

impl TaskId {
    /// Relies on uuid's `Uuid::new_v4`: a fresh random identifier.
    #[verifier::external_body]
    pub(crate) fn new_v4() -> (r: TaskId) {
        TaskId { value: uuid::Uuid::new_v4().as_u128() }
    }

    /// Relies on uuid's `Display` for `Uuid` (the hyphenated lower-case form
    /// of the value's 32 digits, as `as_u128` packs them), which
    /// `Uuid::parse_str` reads back as the same value.
    #[verifier::external_body]
    pub(crate) fn to_text(&self) -> (r: String)
        ensures
            r@ == uuid_text(self.value),
            parsed_uuid(r@) == Some(self.value),
    {
        uuid::Uuid::from_u128(self.value).to_string()
    }

    /// Relies on uuid's `Uuid::parse_str` (simple, hyphenated, urn and
    /// braced forms), with the value taken by `as_u128`.
    #[verifier::external_body]
    pub(crate) fn parse_str(s: &str) -> (r: Option<TaskId>)
        ensures
            r == (match parsed_uuid(s@) {
                Some(v) => Some(TaskId { value: v }),
                None => None,
            }),
    {
        match uuid::Uuid::parse_str(s) {
            Ok(u) => Some(TaskId { value: u.as_u128() }),
            Err(_) => None,
        }
    }
}

pub open spec fn tag_views(tags: Seq<String>) -> Seq<Seq<char>> {
    tags.map_values(|t: String| t@)
}

pub open spec fn opt_tag_views(tags: Option<Vec<String>>) -> Option<Seq<Seq<char>>> {
    match tags {
        Some(v) => Some(tag_views(v@)),
        None => None,
    }
}

/// The changes that an edit asks for; each absent field stays as it is.
#[derive(Debug)]
pub struct TaskEdit {
    pub description: Option<String>,
    pub priority: Option<Priority>,
    pub status: Option<Status>,
    pub tags: Option<Vec<String>>,
    pub due_date: Option<Timestamp>,
}

impl TaskEdit {
    pub open spec fn is_empty(&self) -> bool {
        &&& self.description is None
        &&& self.priority is None
        &&& self.status is None
        &&& self.tags is None
        &&& self.due_date is None
    }
}

/// The task with the edit's fields put in (a tag list that is given empty
/// leaves no tags); the last change is left to the caller.
pub open spec fn edited(t: TaskView, e: TaskEdit) -> TaskView {
    TaskView {
        description: match e.description {
            Some(d) => d@,
            None => t.description,
        },
        priority: match e.priority {
            Some(p) => p,
            None => t.priority,
        },
        status: match e.status {
            Some(s) => Some(s),
            None => t.status,
        },
        tags: match e.tags {
            Some(v) => if v@.len() == 0 { None } else { Some(tag_views(v@)) },
            None => t.tags,
        },
        due_date: match e.due_date {
            Some(d) => d,
            None => t.due_date,
        },
        ..t
    }
}

/// A task as a mathematical value.
pub struct TaskView {
    pub id: u128,
    pub description: Seq<char>,
    pub tags: Option<Seq<Seq<char>>>,
    pub status: Option<Status>,
    pub priority: Priority,
    pub due_date: Timestamp,
    pub created_at: Timestamp,
    pub updated_at: Timestamp,
}

/// One unit of work that a user tracks.
#[derive(Debug)]
pub struct Task {
    pub id: TaskId,
    pub description: String,
    pub tags: Option<Vec<String>>,
    pub status: Option<Status>,
    pub priority: Priority,
    pub due_date: Timestamp,
    pub created_at: Timestamp,
    pub updated_at: Timestamp,
}

impl View for Task {
    type V = TaskView;

    open spec fn view(&self) -> TaskView {
        TaskView {
            id: self.id.value,
            description: self.description@,
            tags: opt_tag_views(self.tags),
            status: self.status,
            priority: self.priority,
            due_date: self.due_date,
            created_at: self.created_at,
            updated_at: self.updated_at,
        }
    }
}

/// A copy of a list of tags.
pub fn copy_tags(tags: &Vec<String>) -> (r: Vec<String>)
    ensures
        tag_views(r@) == tag_views(tags@),
{
    let mut r: Vec<String> = Vec::new();
    let mut i: usize = 0;
    while i < tags.len()
        invariant
            i <= tags@.len(),
            r@.len() == i,
            forall|j: int| 0 <= j < i ==> #[trigger] r@[j]@ == tags@[j]@,
        decreases tags@.len() - i,
    {
        r.push(tags[i].clone());
        i = i + 1;
    }
    assert(tag_views(r@) =~= tag_views(tags@));
    r
}

pub fn copy_opt_tags(tags: &Option<Vec<String>>) -> (r: Option<Vec<String>>)
    ensures
        opt_tag_views(r) == opt_tag_views(*tags),
{
    match tags {
        Some(v) => Some(copy_tags(v)),
        None => None,
    }
}

impl Clone for Task {
    fn clone(&self) -> (r: Task)
        ensures
            r@ == self@,
    {
        Task {
            id: self.id,
            description: self.description.clone(),
            tags: copy_opt_tags(&self.tags),
            status: self.status,
            priority: self.priority,
            due_date: self.due_date,
            created_at: self.created_at,
            updated_at: self.updated_at,
        }
    }
}

/// What `updated_at` becomes when a task changes at `now`: the current
/// time, but never earlier than the creation time.
pub open spec fn refreshed(created_at: Timestamp, now: Timestamp) -> Timestamp {
    if now.before(created_at) {
        created_at
    } else {
        now
    }
}

/// The due date given, or else one day after creation.
pub open spec fn default_due(created_at: Timestamp, due_date: Option<Timestamp>) -> Timestamp {
    match due_date {
        Some(d) => d,
        None => Timestamp { secs: (created_at.secs + SECS_PER_DAY) as i64, nanos: created_at.nanos },
    }
}

/// The tags left once every tag equal to `tag` is gone.
pub open spec fn without_tag(tags: Seq<Seq<char>>, tag: Seq<char>) -> Seq<Seq<char>> {
    tags.filter(differs_from(tag))
}

pub open spec fn differs_from(tag: Seq<char>) -> spec_fn(Seq<char>) -> bool {
    |t: Seq<char>| t != tag
}

impl Task {
    /// A task with the given identifier, created at `now`: `updated_at`
    /// equals `created_at`, the priority defaults to `Medium` and the due
    /// date to one day after creation; tags and status are kept as given.
    pub fn create(
        id: TaskId,
        now: Timestamp,
        description: &str,
        tags: Option<Vec<String>>,
        status: Option<Status>,
        priority: Option<Priority>,
        due_date: Option<Timestamp>,
    ) -> (r: Task)
        requires
            due_date is None ==> now.secs <= i64::MAX - SECS_PER_DAY,
        ensures
            r@ == (TaskView {
                id: id.value,
                description: description@,
                tags: opt_tag_views(tags),
                status,
                priority: match priority {
                    Some(p) => p,
                    None => Priority::Medium,
                },
                due_date: default_due(now, due_date),
                created_at: now,
                updated_at: now,
            }),
    {
        let due = match due_date {
            Some(d) => d,
            None => now.next_day(),
        };
        let priority = match priority {
            Some(p) => p,
            None => Priority::default(),
        };
        Task {
            id,
            description: description.to_owned(),
            tags,
            status,
            priority,
            due_date: due,
            created_at: now,
            updated_at: now,
        }
    }

    /// A new task with a fresh random identifier, created now.
    pub fn new(
        description: &str,
        tags: Option<Vec<String>>,
        status: Option<Status>,
        priority: Option<Priority>,
        due_date: Option<Timestamp>,
    ) -> (r: Task)
        ensures
            r@.description == description@,
            r@.tags == opt_tag_views(tags),
            r@.status == status,
            r@.priority == (match priority {
                Some(p) => p,
                None => Priority::Medium,
            }),
            r@.due_date == default_due(r@.created_at, due_date),
            r@.updated_at == r@.created_at,
            r@.created_at.secs >= 0,
            r@.created_at.nanos < crate::timestamp::NANOS_PER_SEC,
    {
        let id = TaskId::new_v4();
        let now = Timestamp::now();
        Task::create(id, now, description, tags, status, priority, due_date)
    }

    /// Marks the task as changed at `now`.
    pub fn touch_at(&mut self, now: Timestamp)
        ensures
            final(self)@ == (TaskView { updated_at: refreshed(old(self).created_at, now), ..old(self)@ }),
    {
        let created = self.created_at;
        self.updated_at = if now.is_before(&created) {
            created
        } else {
            now
        };
    }

    fn touch(&mut self)
        ensures
            final(self)@ == (TaskView { updated_at: final(self).updated_at, ..old(self)@ }),
            !final(self).updated_at.before(final(self).created_at),
    {
        let now = Timestamp::now();
        self.touch_at(now);
    }

    pub fn set_description(&mut self, description: &str)
        ensures
            final(self)@ == (TaskView {
                description: description@,
                updated_at: final(self).updated_at,
                ..old(self)@
            }),
            !final(self).updated_at.before(final(self).created_at),
    {
        self.description = description.to_owned();
        self.touch();
    }

    pub fn set_status(&mut self, status: Option<Status>)
        ensures
            final(self)@ == (TaskView { status, updated_at: final(self).updated_at, ..old(self)@ }),
            !final(self).updated_at.before(final(self).created_at),
    {
        self.status = status;
        self.touch();
    }

    pub fn set_priority(&mut self, priority: Priority)
        ensures
            final(self)@ == (TaskView { priority, updated_at: final(self).updated_at, ..old(self)@ }),
            !final(self).updated_at.before(final(self).created_at),
    {
        self.priority = priority;
        self.touch();
    }

    pub fn set_due_date(&mut self, due_date: Timestamp)
        ensures
            final(self)@ == (TaskView { due_date, updated_at: final(self).updated_at, ..old(self)@ }),
            !final(self).updated_at.before(final(self).created_at),
    {
        self.due_date = due_date;
        self.touch();
    }

    /// Replaces the whole tag set; an empty list leaves the task without tags.
    pub fn set_tags(&mut self, tags: Vec<String>)
        ensures
            final(self)@ == (TaskView {
                tags: if tags@.len() == 0 { None } else { Some(tag_views(tags@)) },
                updated_at: final(self).updated_at,
                ..old(self)@
            }),
            !final(self).updated_at.before(final(self).created_at),
    {
        self.tags = if tags.len() == 0 {
            None
        } else {
            Some(tags)
        };
        self.touch();
    }

    /// Appends a tag (duplicates are kept), creating the tag list if absent.
    pub fn add_tag(&mut self, tag: &str)
        ensures
            final(self)@ == (TaskView {
                tags: Some(
                    match old(self)@.tags {
                        Some(t) => t,
                        None => Seq::empty(),
                    }.push(tag@),
                ),
                updated_at: final(self).updated_at,
                ..old(self)@
            }),
            !final(self).updated_at.before(final(self).created_at),
    {
        let t = tag.to_owned();
        match &mut self.tags {
            Some(v) => {
                v.push(t);
            },
            None => {
                self.tags = Some(vec![t]);
            },
        }
        proof {
            let ghost olds = match old(self)@.tags {
                Some(t) => t,
                None => Seq::empty(),
            };
            assert(self@.tags->0 =~= olds.push(tag@));
        }
        self.touch();
    }

    /// Removes every tag equal to `tag`; a list left empty becomes absent.
    /// A task without tags is left as it is.
    pub fn remove_tag(&mut self, tag: &str)
        ensures
            old(self)@.tags is None ==> final(self)@ == old(self)@,
            old(self)@.tags is Some ==> {
                let kept = without_tag(old(self)@.tags->0, tag@);
                &&& final(self)@ == (TaskView {
                    tags: if kept.len() == 0 { None } else { Some(kept) },
                    updated_at: final(self).updated_at,
                    ..old(self)@
                })
                &&& !final(self).updated_at.before(final(self).created_at)
            },
    {
        if let Some(v) = &self.tags {
            let ghost pred = differs_from(tag@);
            let target = tag.to_owned();
            let mut kept: Vec<String> = Vec::new();
            let mut i: usize = 0;
            while i < v.len()
                invariant
                    i <= v@.len(),
                    target@ == tag@,
                    pred == differs_from(tag@),
                    tag_views(kept@) == tag_views(v@).take(i as int).filter(pred),
                decreases v@.len() - i,
            {
                let keep = !(v[i] == target);
                proof {
                    assert(tag_views(v@).take(i + 1) =~= tag_views(v@).take(i as int).push(v@[i as int]@));
                    tag_views(v@).take(i as int).lemma_filter_push(v@[i as int]@, pred);
                }
                assert(pred(v@[i as int]@) == keep);
                let ghost before = kept@;
                if keep {
                    kept.push(v[i].clone());
                    assert(tag_views(kept@) =~= tag_views(before).push(v@[i as int]@));
                }
                i = i + 1;
            }
            assert(tag_views(v@).take(v@.len() as int) == tag_views(v@));
            self.tags = if kept.len() == 0 {
                None
            } else {
                Some(kept)
            };
            self.touch();
        }
    }

    /// Applies an edit: every field it gives replaces the task's, and the
    /// last change is refreshed; an empty edit changes nothing.
    pub fn apply_edit(&mut self, edit: TaskEdit)
        ensures
            final(self)@ == (TaskView { updated_at: final(self)@.updated_at, ..edited(old(self)@, edit) }),
            edit.is_empty() ==> final(self)@ == old(self)@,
            !edit.is_empty() ==> !final(self).updated_at.before(final(self).created_at),
    {
        let ghost e = edit;
        let TaskEdit { description, priority, status, tags, due_date } = edit;
        if let Some(d) = description {
            self.set_description(d.as_str());
        }
        if let Some(p) = priority {
            self.set_priority(p);
        }
        if let Some(s) = status {
            self.set_status(Some(s));
        }
        if let Some(t) = tags {
            self.set_tags(t);
        }
        if let Some(d) = due_date {
            self.set_due_date(d);
        }
    }
}

} // verus!
