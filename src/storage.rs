use vstd::prelude::*;
use crate::task::{tag_views, uuid_text, Priority, Status, Task, TaskId, TaskView};
use crate::timestamp::Timestamp;
use crate::row::{decode, decode_row, encode, encode_row, TagRow, TaskRow, TaskRowView};

verus! {

/// Why the store refused an operation.
#[derive(Clone, Copy, Debug, PartialEq, Eq, Structural)]
pub enum StoreError {
    /// A task with the same identifier is already stored.
    DuplicateId,
    /// The task carries the same tag twice.
    DuplicateTag,
    /// A timestamp of the task has no four-digit-year RFC 3339 text.
    InvalidTimestamp,
    /// A stored record cannot be read back as a task.
    CorruptRecord,
}

/// What completing a task came to.
#[derive(Debug)]
pub enum Completion {
    /// No task has the identifier.
    NotFound,
    /// The task was completed already; it is left as it was.
    AlreadyCompleted(Task),
    /// The task, now completed, as stored.
    Completed(Task),
}

pub open spec fn views(tasks: Seq<Task>) -> Seq<TaskView> {
    tasks.map_values(|t: Task| t@)
}

/// A tag list as the tag table holds it: absent, or non-empty without
/// repeats.
pub open spec fn tags_ok(tags: Option<Seq<Seq<char>>>) -> bool {
    match tags {
        Some(t) => t.len() > 0 && t.no_duplicates(),
        None => true,
    }
}

/// A task that the store can hold as it is.
pub open spec fn storable(t: TaskView) -> bool {
    &&& tags_ok(t.tags)
    &&& t.due_date.is_valid()
    &&& t.created_at.is_valid()
    &&& t.updated_at.is_valid()
}

pub open spec fn ids_distinct(s: Seq<TaskView>) -> bool {
    forall|i: int, j: int| 0 <= i < j < s.len() ==> s[i].id != s[j].id
}

/// Newest `created_at` first.
pub open spec fn newest_first(s: Seq<TaskView>) -> bool {
    forall|i: int, j: int| 0 <= i < j < s.len() ==> !(#[trigger] s[i].created_at).before(#[trigger] s[j].created_at)
}

/// The invariant of the store's contents.
pub open spec fn store_ok(s: Seq<TaskView>) -> bool {
    &&& ids_distinct(s)
    &&& newest_first(s)
    &&& forall|i: int| 0 <= i < s.len() ==> storable(#[trigger] s[i])
}

/// An empty tag list is recorded as no tags.
pub open spec fn normalized_tags(tags: Option<Seq<Seq<char>>>) -> Option<Seq<Seq<char>>> {
    match tags {
        Some(t) => if t.len() == 0 { None } else { Some(t) },
        None => None,
    }
}

pub open spec fn tags_repeat(tags: Option<Seq<Seq<char>>>) -> bool {
    match tags {
        Some(t) => !t.no_duplicates(),
        None => false,
    }
}

/// The task as the store records it.
pub open spec fn as_stored(t: TaskView) -> TaskView {
    TaskView { tags: normalized_tags(t.tags), ..t }
}

/// The first index at or after `from` that holds `id`, or the length.
pub open spec fn position(s: Seq<TaskView>, id: u128, from: int) -> int
    decreases s.len() - from,
{
    if from < 0 || from >= s.len() {
        s.len() as int
    } else if s[from].id == id {
        from
    } else {
        position(s, id, from + 1)
    }
}

/// The first index at or after `from` whose task was created strictly
/// before `c`, or the length: where a task created at `c` goes.
pub open spec fn slot(s: Seq<TaskView>, c: Timestamp, from: int) -> int
    decreases s.len() - from,
{
    if from < 0 || from >= s.len() {
        s.len() as int
    } else if s[from].created_at.before(c) {
        from
    } else {
        slot(s, c, from + 1)
    }
}

pub open spec fn lookup(s: Seq<TaskView>, id: u128) -> Option<TaskView> {
    let p = position(s, id, 0);
    if p < s.len() {
        Some(s[p])
    } else {
        None
    }
}

pub open spec fn add_result(s: Seq<TaskView>, t: TaskView) -> Result<Seq<TaskView>, StoreError> {
    if lookup(s, t.id) is Some {
        Err(StoreError::DuplicateId)
    } else if !(t.due_date.is_valid() && t.created_at.is_valid() && t.updated_at.is_valid()) {
        Err(StoreError::InvalidTimestamp)
    } else if tags_repeat(t.tags) {
        Err(StoreError::DuplicateTag)
    } else {
        Ok(s.insert(slot(s, t.created_at, 0), as_stored(t)))
    }
}

/// The stored task `old` overwritten by `t`: all but the identifier and the
/// creation time.
pub open spec fn merged(old: TaskView, t: TaskView) -> TaskView {
    TaskView { id: old.id, created_at: old.created_at, ..as_stored(t) }
}

pub open spec fn update_result(s: Seq<TaskView>, t: TaskView) -> Result<Seq<TaskView>, StoreError> {
    let p = position(s, t.id, 0);
    if !(t.due_date.is_valid() && t.updated_at.is_valid()) {
        Err(StoreError::InvalidTimestamp)
    } else if tags_repeat(t.tags) {
        Err(StoreError::DuplicateTag)
    } else if p < s.len() {
        Ok(s.update(p, merged(s[p], t)))
    } else {
        Ok(s)
    }
}

pub open spec fn deleted(s: Seq<TaskView>, id: u128) -> Seq<TaskView> {
    let p = position(s, id, 0);
    if p < s.len() {
        s.remove(p)
    } else {
        s
    }
}

pub open spec fn status_is(status: Status) -> spec_fn(TaskView) -> bool {
    |t: TaskView| t.status == Some(status)
}

pub open spec fn priority_is(priority: Priority) -> spec_fn(TaskView) -> bool {
    |t: TaskView| t.priority == priority
}

pub open spec fn has_tag(tag: Seq<char>) -> spec_fn(TaskView) -> bool {
    |t: TaskView| t.tags is Some && t.tags->0.contains(tag)
}

/// The tag table: one (task identifier, tag) pair per tag, task by task.
pub open spec fn tag_table(s: Seq<TaskView>) -> Seq<(u128, Seq<char>)>
    decreases s.len(),
{
    if s.len() == 0 {
        Seq::empty()
    } else {
        tag_table(s.drop_last()) + tag_pairs(s.last())
    }
}

pub open spec fn tag_pairs(t: TaskView) -> Seq<(u128, Seq<char>)> {
    match t.tags {
        Some(tags) => tags.map_values(|tag: Seq<char>| (t.id, tag)),
        None => Seq::empty(),
    }
}

/// The tag table as text: each task identifier in its canonical form.
pub open spec fn tag_row_texts(pairs: Seq<(u128, Seq<char>)>) -> Seq<(Seq<char>, Seq<char>)> {
    pairs.map_values(|p: (u128, Seq<char>)| (uuid_text(p.0), p.1))
}

pub open spec fn row_views(rows: Seq<TaskRow>) -> Seq<TaskRowView> {
    rows.map_values(|r: TaskRow| r@)
}

pub open spec fn tag_row_views(rows: Seq<TagRow>) -> Seq<(Seq<char>, Seq<char>)> {
    rows.map_values(|r: TagRow| r@)
}

/// The tags that the tag rows give the task whose identifier reads `id`,
/// in the order of the rows.
pub open spec fn tags_for(tag_rows: Seq<(Seq<char>, Seq<char>)>, id: Seq<char>) -> Seq<Seq<char>>
    decreases tag_rows.len(),
{
    if tag_rows.len() == 0 {
        Seq::empty()
    } else {
        let before = tags_for(tag_rows.drop_last(), id);
        if tag_rows.last().0 == id {
            before.push(tag_rows.last().1)
        } else {
            before
        }
    }
}

/// The store that the rows of the two tables describe: each task row read
/// back with its tags (none when it has no tag row) and added in turn.
pub open spec fn load_result(rows: Seq<TaskRowView>, tag_rows: Seq<(Seq<char>, Seq<char>)>) -> Result<
    Seq<TaskView>,
    StoreError,
>
    decreases rows.len(),
{
    if rows.len() == 0 {
        Ok(Seq::empty())
    } else {
        match load_result(rows.drop_last(), tag_rows) {
            Err(e) => Err(e),
            Ok(s) => match decode(rows.last(), normalized_tags(Some(tags_for(tag_rows, rows.last().id)))) {
                None => Err(StoreError::CorruptRecord),
                Some(t) => add_result(s, t),
            },
        }
    }
}

/// Once the rows up to some point fail to load, every longer prefix fails
/// the same way.
pub proof fn lemma_load_error_stays(rows: Seq<TaskRowView>, tag_rows: Seq<(Seq<char>, Seq<char>)>, k: int, m: int)
    requires
        0 <= k <= m <= rows.len(),
        load_result(rows.take(k), tag_rows) is Err,
    ensures
        load_result(rows.take(m), tag_rows) == load_result(rows.take(k), tag_rows),
    decreases m - k,
{
    if k < m {
        lemma_load_error_stays(rows, tag_rows, k, m - 1);
        assert(rows.take(m).drop_last() =~= rows.take(m - 1));
    }
}

pub proof fn lemma_position(s: Seq<TaskView>, id: u128, from: int)
    requires
        0 <= from <= s.len(),
    ensures
        from <= position(s, id, from) <= s.len(),
        forall|k: int| from <= k < position(s, id, from) ==> s[k].id != id,
        position(s, id, from) < s.len() ==> s[position(s, id, from)].id == id,
    decreases s.len() - from,
{
    if from < s.len() && s[from].id != id {
        lemma_position(s, id, from + 1);
    }
}

pub proof fn lemma_slot(s: Seq<TaskView>, c: Timestamp, from: int)
    requires
        0 <= from <= s.len(),
    ensures
        from <= slot(s, c, from) <= s.len(),
        forall|k: int| from <= k < slot(s, c, from) ==> !s[k].created_at.before(c),
        slot(s, c, from) < s.len() ==> s[slot(s, c, from)].created_at.before(c),
    decreases s.len() - from,
{
    if from < s.len() && !s[from].created_at.before(c) {
        lemma_slot(s, c, from + 1);
    }
}

/// In a store with distinct identifiers, `lookup` finds the one task with
/// the identifier, if any.
pub proof fn lemma_lookup(s: Seq<TaskView>, id: u128)
    requires
        ids_distinct(s),
    ensures
        lookup(s, id) is None <==> forall|k: int| 0 <= k < s.len() ==> s[k].id != id,
        forall|k: int| 0 <= k < s.len() && s[k].id == id ==> lookup(s, id) == Some(s[k]),
{
    lemma_position(s, id, 0);
}

pub proof fn lemma_add_keeps_store_ok(s: Seq<TaskView>, t: TaskView)
    requires
        store_ok(s),
        add_result(s, t) is Ok,
    ensures
        store_ok(add_result(s, t)->Ok_0),
{
    lemma_lookup(s, t.id);
    lemma_slot(s, t.created_at, 0);
    let p = slot(s, t.created_at, 0);
    let n = s.insert(p, as_stored(t));
    assert forall|i: int, j: int| 0 <= i < j < n.len() implies !(#[trigger] n[i].created_at).before(
        #[trigger] n[j].created_at,
    ) by {
        if j < p {
        } else if j == p {
        } else if i < p {
            assert(n[j] == s[j - 1]);
        } else if i == p {
            assert(n[j] == s[j - 1]);
            if p < j - 1 {
                assert(!s[p].created_at.before(s[j - 1].created_at));
            }
        } else {
            assert(n[i] == s[i - 1]);
            assert(n[j] == s[j - 1]);
        }
    }
    assert forall|i: int, j: int| 0 <= i < j < n.len() implies n[i].id != n[j].id by {
        if j < p {
        } else if j == p {
        } else if i < p {
            assert(n[j] == s[j - 1]);
        } else if i == p {
            assert(n[j] == s[j - 1]);
        } else {
            assert(n[i] == s[i - 1]);
            assert(n[j] == s[j - 1]);
        }
    }
    assert forall|i: int| 0 <= i < n.len() implies storable(#[trigger] n[i]) by {
        if i < p {
        } else if i == p {
        } else {
            assert(n[i] == s[i - 1]);
        }
    }
}

pub proof fn lemma_update_keeps_store_ok(s: Seq<TaskView>, t: TaskView)
    requires
        store_ok(s),
        update_result(s, t) is Ok,
    ensures
        store_ok(update_result(s, t)->Ok_0),
{
    lemma_position(s, t.id, 0);
    let p = position(s, t.id, 0);
    if p < s.len() {
        let n = s.update(p, merged(s[p], t));
        assert forall|i: int, j: int| 0 <= i < j < n.len() implies !(#[trigger] n[i].created_at).before(
            #[trigger] n[j].created_at,
        ) by {
            assert(s[i].created_at == n[i].created_at);
            assert(s[j].created_at == n[j].created_at);
        }
        assert forall|i: int, j: int| 0 <= i < j < n.len() implies n[i].id != n[j].id by {
            assert(s[i].id == n[i].id);
            assert(s[j].id == n[j].id);
        }
        assert forall|i: int| 0 <= i < n.len() implies storable(#[trigger] n[i]) by {
            if i == p {
                assert(storable(s[p]));
            }
        }
    }
}

pub proof fn lemma_delete_keeps_store_ok(s: Seq<TaskView>, id: u128)
    requires
        store_ok(s),
    ensures
        store_ok(deleted(s, id)),
{
    let p = position(s, id, 0);
    lemma_position(s, id, 0);
    if p < s.len() {
        let n = s.remove(p);
        assert forall|i: int, j: int| 0 <= i < j < n.len() implies !(#[trigger] n[i].created_at).before(
            #[trigger] n[j].created_at,
        ) by {
            let a = if i < p { i } else { i + 1 };
            let b = if j < p { j } else { j + 1 };
            assert(n[i] == s[a]);
            assert(n[j] == s[b]);
        }
        assert forall|i: int, j: int| 0 <= i < j < n.len() implies n[i].id != n[j].id by {
            let a = if i < p { i } else { i + 1 };
            let b = if j < p { j } else { j + 1 };
            assert(n[i] == s[a]);
            assert(n[j] == s[b]);
        }
        assert forall|i: int| 0 <= i < n.len() implies storable(#[trigger] n[i]) by {
            let a = if i < p { i } else { i + 1 };
            assert(n[i] == s[a]);
        }
    }
}

/// The tasks table and its tag side table, held in memory: tasks newest
/// first, each with its tags.
pub struct TaskStorage {
    tasks: Vec<Task>,
}

impl View for TaskStorage {
    type V = Seq<TaskView>;

    closed spec fn view(&self) -> Seq<TaskView> {
        views(self.tasks@)
    }
}

/// Whether the tag list holds some tag twice.
pub fn repeats_a_tag(tags: &Vec<String>) -> (r: bool)
    ensures
        r == !tag_views(tags@).no_duplicates(),
{
    let ghost tv = tag_views(tags@);
    let mut i: usize = 0;
    while i < tags.len()
        invariant
            i <= tags@.len(),
            tv == tag_views(tags@),
            forall|a: int, b: int| 0 <= a < b < tags@.len() && a < i ==> tv[a] != tv[b],
        decreases tags@.len() - i,
    {
        let mut j: usize = i + 1;
        while j < tags.len()
            invariant
                i < j <= tags@.len(),
                tv == tag_views(tags@),
                forall|a: int, b: int| 0 <= a < b < tags@.len() && a < i ==> tv[a] != tv[b],
                forall|b: int| i < b < j ==> tv[i as int] != tv[b],
            decreases tags@.len() - j,
        {
            if tags[i] == tags[j] {
                assert(tv[i as int] == tv[j as int]);
                return true;
            }
            j = j + 1;
        }
        i = i + 1;
    }
    false
}

fn repeats(tags: &Option<Vec<String>>) -> (r: bool)
    ensures
        r == tags_repeat(crate::task::opt_tag_views(*tags)),
{
    match tags {
        Some(v) => repeats_a_tag(v),
        None => false,
    }
}

/// Whether the task carries `tag`.
pub fn carries_tag(task: &Task, tag: &str) -> (r: bool)
    ensures
        r == has_tag(tag@)(task@),
{
    match &task.tags {
        Some(v) => {
            let target = tag.to_owned();
            let ghost tv = tag_views(v@);
            let mut i: usize = 0;
            while i < v.len()
                invariant
                    i <= v@.len(),
                    tv == tag_views(v@),
                    target@ == tag@,
                    task@.tags == Some(tv),
                    forall|k: int| 0 <= k < i ==> tv[k] != tag@,
                decreases v@.len() - i,
            {
                if v[i] == target {
                    assert(tv[i as int] == tag@);
                    assert(tv.contains(tag@));
                    return true;
                }
                i = i + 1;
            }
            assert(!tv.contains(tag@));
            false
        },
        None => false,
    }
}

/// A copy of the task with an empty tag list recorded as no tags.
fn stored_copy(task: &Task) -> (r: Task)
    ensures
        r@ == as_stored(task@),
{
    let mut r = task.clone();
    match &r.tags {
        Some(v) => {
            if v.len() == 0 {
                r.tags = None;
            }
        },
        None => {},
    }
    r
}

/// The tags of the tag rows that name the task identifier `id`.
fn tags_of(tag_rows: &Vec<TagRow>, id: &String) -> (r: Vec<String>)
    ensures
        tag_views(r@) == tags_for(tag_row_views(tag_rows@), id@),
{
    let ghost tv = tag_row_views(tag_rows@);
    let mut r: Vec<String> = Vec::new();
    let mut j: usize = 0;
    while j < tag_rows.len()
        invariant
            j <= tag_rows@.len(),
            tv == tag_row_views(tag_rows@),
            tag_views(r@) == tags_for(tv.take(j as int), id@),
        decreases tag_rows@.len() - j,
    {
        assert(tv.take(j + 1).drop_last() =~= tv.take(j as int));
        assert(tv.take(j + 1).last() == tag_rows@[j as int]@);
        let ghost before = r@;
        if tag_rows[j].task_id == *id {
            r.push(tag_rows[j].tag.clone());
            assert(tag_views(r@) =~= tag_views(before).push(tag_rows@[j as int].tag@));
        }
        j = j + 1;
    }
    assert(tv.take(tag_rows@.len() as int) =~= tv);
    r
}

impl TaskStorage {
    pub open spec fn wf(&self) -> bool {
        store_ok(self@)
    }

    /// An empty store.
    pub fn new() -> (r: TaskStorage)
        ensures
            r.wf(),
            r@ == Seq::<TaskView>::empty(),
    {
        let r = TaskStorage { tasks: Vec::new() };
        assert(r@ =~= Seq::<TaskView>::empty());
        r
    }

    /// The number of stored tasks.
    pub fn len(&self) -> (r: usize)
        ensures
            r == self@.len(),
    {
        self.tasks.len()
    }

    fn find(&self, id: u128) -> (p: usize)
        ensures
            p == position(self@, id, 0),
    {
        let ghost s = self@;
        let mut i: usize = 0;
        while i < self.tasks.len()
            invariant
                s == self@,
                s.len() == self.tasks@.len(),
                i <= s.len(),
                position(s, id, 0) == position(s, id, i as int),
            decreases s.len() - i,
        {
            assert(s[i as int] == self.tasks@[i as int]@);
            if self.tasks[i].id.value == id {
                return i;
            }
            i = i + 1;
        }
        i
    }

    fn slot_for(&self, c: Timestamp) -> (p: usize)
        ensures
            p == slot(self@, c, 0),
    {
        let ghost s = self@;
        let mut i: usize = 0;
        while i < self.tasks.len()
            invariant
                s == self@,
                s.len() == self.tasks@.len(),
                i <= s.len(),
                slot(s, c, 0) == slot(s, c, i as int),
            decreases s.len() - i,
        {
            assert(s[i as int] == self.tasks@[i as int]@);
            if self.tasks[i].created_at.is_before(&c) {
                return i;
            }
            i = i + 1;
        }
        i
    }

    /// Stores a new task with its tags. Fails, leaving the store as it
    /// was, when the identifier is taken, a timestamp has no four-digit
    /// year, or a tag repeats.
    pub fn add_task(&mut self, task: &Task) -> (r: Result<(), StoreError>)
        requires
            old(self).wf(),
        ensures
            final(self).wf(),
            match add_result(old(self)@, task@) {
                Ok(s) => r is Ok && final(self)@ == s,
                Err(e) => r == Err::<(), StoreError>(e) && final(self)@ == old(self)@,
            },
    {
        let p = self.find(task.id.value);
        proof {
            lemma_position(self@, task.id.value, 0);
        }
        if p < self.tasks.len() {
            return Err(StoreError::DuplicateId);
        }
        if !(task.due_date.valid() && task.created_at.valid() && task.updated_at.valid()) {
            return Err(StoreError::InvalidTimestamp);
        }
        if repeats(&task.tags) {
            return Err(StoreError::DuplicateTag);
        }
        let at = self.slot_for(task.created_at);
        proof {
            lemma_slot(self@, task.created_at, 0);
            lemma_add_keeps_store_ok(self@, task@);
        }
        let ghost before = self.tasks@;
        self.tasks.insert(at, stored_copy(task));
        assert(views(self.tasks@) =~= views(before).insert(at as int, as_stored(task@)));
        Ok(())
    }

    /// The task with this identifier, if one is stored.
    pub fn get_task(&self, id: &TaskId) -> (r: Option<Task>)
        ensures
            match r {
                Some(t) => lookup(self@, id.value) == Some(t@),
                None => lookup(self@, id.value) is None,
            },
    {
        let p = self.find(id.value);
        if p < self.tasks.len() {
            assert(self@[p as int] == self.tasks@[p as int]@);
            Some(self.tasks[p].clone())
        } else {
            None
        }
    }

    /// Every stored task, newest first.
    pub fn get_all_tasks(&self) -> (r: Vec<Task>)
        requires
            self.wf(),
        ensures
            views(r@) == self@,
            newest_first(views(r@)),
    {
        let mut r: Vec<Task> = Vec::new();
        let mut i: usize = 0;
        while i < self.tasks.len()
            invariant
                i <= self.tasks@.len(),
                views(r@) == self@.take(i as int),
            decreases self.tasks@.len() - i,
        {
            let ghost before = r@;
            r.push(self.tasks[i].clone());
            assert(views(r@) =~= views(before).push(self@[i as int]));
            assert(self@.take(i + 1) =~= self@.take(i as int).push(self@[i as int]));
            i = i + 1;
        }
        assert(self@.take(self@.len() as int) =~= self@);
        r
    }

    /// Overwrites the stored task with `task`'s identifier: description,
    /// priority, status, due date, last change and the whole tag set. The
    /// creation time stays. An unknown identifier changes nothing. Fails,
    /// leaving the store as it was, when a timestamp to write has no
    /// four-digit year or a tag repeats.
    pub fn update_task(&mut self, task: &Task) -> (r: Result<(), StoreError>)
        requires
            old(self).wf(),
        ensures
            final(self).wf(),
            match update_result(old(self)@, task@) {
                Ok(s) => r is Ok && final(self)@ == s,
                Err(e) => r == Err::<(), StoreError>(e) && final(self)@ == old(self)@,
            },
    {
        if !(task.due_date.valid() && task.updated_at.valid()) {
            return Err(StoreError::InvalidTimestamp);
        }
        if repeats(&task.tags) {
            return Err(StoreError::DuplicateTag);
        }
        let p = self.find(task.id.value);
        proof {
            lemma_update_keeps_store_ok(self@, task@);
        }
        if p < self.tasks.len() {
            let mut t = stored_copy(task);
            t.id = self.tasks[p].id;
            t.created_at = self.tasks[p].created_at;
            assert(t@ == merged(self@[p as int], task@));
            let ghost before = self.tasks@;
            self.tasks.set(p, t);
            assert(views(self.tasks@) =~= views(before).update(p as int, merged(views(before)[p as int], task@)));
        }
        Ok(())
    }

    /// Removes the task with this identifier and all its tags; an unknown
    /// identifier changes nothing.
    pub fn delete_task(&mut self, id: &TaskId)
        requires
            old(self).wf(),
        ensures
            final(self).wf(),
            final(self)@ == deleted(old(self)@, id.value),
    {
        let p = self.find(id.value);
        proof {
            lemma_delete_keeps_store_ok(self@, id.value);
        }
        if p < self.tasks.len() {
            let ghost before = self.tasks@;
            self.tasks.remove(p);
            assert(views(self.tasks@) =~= views(before).remove(p as int));
        }
    }

    /// The stored tasks with exactly this status, newest first; tasks
    /// without a status never match.
    pub fn get_tasks_by_status(&self, status: &Status) -> (r: Vec<Task>)
        requires
            self.wf(),
        ensures
            views(r@) == self@.filter(status_is(*status)),
            newest_first(views(r@)),
    {
        proof {
            crate::laws::lemma_filter_newest_first(self@, status_is(*status));
        }
        let ghost pred = status_is(*status);
        let mut r: Vec<Task> = Vec::new();
        let mut i: usize = 0;
        while i < self.tasks.len()
            invariant
                i <= self.tasks@.len(),
                pred == status_is(*status),
                views(r@) == self@.take(i as int).filter(pred),
            decreases self.tasks@.len() - i,
        {
            let ghost before = r@;
            proof {
                assert(self@.take(i + 1) =~= self@.take(i as int).push(self@[i as int]));
                self@.take(i as int).lemma_filter_push(self@[i as int], pred);
            }
            if self.tasks[i].status == Some(*status) {
                r.push(self.tasks[i].clone());
                assert(views(r@) =~= views(before).push(self@[i as int]));
            }
            i = i + 1;
        }
        assert(self@.take(self@.len() as int) =~= self@);
        r
    }

    /// The stored tasks with this priority, newest first.
    pub fn get_tasks_by_priority(&self, priority: &Priority) -> (r: Vec<Task>)
        requires
            self.wf(),
        ensures
            views(r@) == self@.filter(priority_is(*priority)),
            newest_first(views(r@)),
    {
        proof {
            crate::laws::lemma_filter_newest_first(self@, priority_is(*priority));
        }
        let ghost pred = priority_is(*priority);
        let mut r: Vec<Task> = Vec::new();
        let mut i: usize = 0;
        while i < self.tasks.len()
            invariant
                i <= self.tasks@.len(),
                pred == priority_is(*priority),
                views(r@) == self@.take(i as int).filter(pred),
            decreases self.tasks@.len() - i,
        {
            let ghost before = r@;
            proof {
                assert(self@.take(i + 1) =~= self@.take(i as int).push(self@[i as int]));
                self@.take(i as int).lemma_filter_push(self@[i as int], pred);
            }
            if self.tasks[i].priority == *priority {
                r.push(self.tasks[i].clone());
                assert(views(r@) =~= views(before).push(self@[i as int]));
            }
            i = i + 1;
        }
        assert(self@.take(self@.len() as int) =~= self@);
        r
    }

    /// The stored tasks that carry exactly this tag, each once, newest
    /// first.
    pub fn get_tasks_by_tag(&self, tag: &str) -> (r: Vec<Task>)
        requires
            self.wf(),
        ensures
            views(r@) == self@.filter(has_tag(tag@)),
            newest_first(views(r@)),
    {
        proof {
            crate::laws::lemma_filter_newest_first(self@, has_tag(tag@));
        }
        let ghost pred = has_tag(tag@);
        let mut r: Vec<Task> = Vec::new();
        let mut i: usize = 0;
        while i < self.tasks.len()
            invariant
                i <= self.tasks@.len(),
                pred == has_tag(tag@),
                views(r@) == self@.take(i as int).filter(pred),
            decreases self.tasks@.len() - i,
        {
            let ghost before = r@;
            proof {
                assert(self@.take(i + 1) =~= self@.take(i as int).push(self@[i as int]));
                self@.take(i as int).lemma_filter_push(self@[i as int], pred);
            }
            if carries_tag(&self.tasks[i], tag) {
                r.push(self.tasks[i].clone());
                assert(views(r@) =~= views(before).push(self@[i as int]));
            }
            i = i + 1;
        }
        assert(self@.take(self@.len() as int) =~= self@);
        r
    }

    /// The rows of the tasks table, one per task in store order; each
    /// reads back as its task, and together with `tag_rows` they load back
    /// as this very store.
    pub fn task_rows(&self) -> (r: Vec<TaskRow>)
        requires
            self.wf(),
        ensures
            row_views(r@) == self@.map_values(|t: TaskView| encode(t)),
            forall|i: int| 0 <= i < r@.len() ==> decode(#[trigger] r@[i]@, self@[i].tags) == Some(self@[i]),
            load_result(row_views(r@), tag_row_texts(tag_table(self@))) == Ok::<Seq<TaskView>, StoreError>(
                self@,
            ),
    {
        let mut r: Vec<TaskRow> = Vec::new();
        let mut i: usize = 0;
        while i < self.tasks.len()
            invariant
                self.wf(),
                i <= self.tasks@.len(),
                r@.len() == i,
                forall|k: int| 0 <= k < i ==> (#[trigger] r@[k])@ == encode(self@[k]),
                forall|k: int| 0 <= k < i ==> decode(#[trigger] r@[k]@, self@[k].tags) == Some(self@[k]),
            decreases self.tasks@.len() - i,
        {
            assert(self@[i as int] == self.tasks@[i as int]@);
            assert(storable(self@[i as int]));
            r.push(encode_row(&self.tasks[i]));
            i = i + 1;
        }
        assert(row_views(r@) =~= self@.map_values(|t: TaskView| encode(t)));
        proof {
            let rows = row_views(r@);
            assert forall|k: int| 0 <= k < self@.len() implies decode(#[trigger] rows[k], self@[k].tags) == Some(
                self@[k],
            ) by {
                assert(rows[k] == r@[k]@);
            }
            crate::laws::lemma_rows_load_back(self@, rows);
        }
        r
    }

    /// The rows of the tag table: task by task in store order, each task's
    /// tags in their order.
    pub fn tag_rows(&self) -> (r: Vec<TagRow>)
        ensures
            tag_row_views(r@) == tag_row_texts(tag_table(self@)),
    {
        let mut r: Vec<TagRow> = Vec::new();
        let mut i: usize = 0;
        while i < self.tasks.len()
            invariant
                i <= self.tasks@.len(),
                tag_row_views(r@) == tag_row_texts(tag_table(self@.take(i as int))),
            decreases self.tasks@.len() - i,
        {
            let task = &self.tasks[i];
            assert(self@[i as int] == task@);
            let ghost done = r@;
            let ghost pairs = tag_pairs(task@);
            assert(self@.take(i + 1).drop_last() =~= self@.take(i as int));
            assert(self@.take(i + 1).last() == task@);
            assert(tag_table(self@.take(i + 1)) == tag_table(self@.take(i as int)) + pairs);
            assert(tag_row_texts(tag_table(self@.take(i + 1))) =~= tag_row_texts(tag_table(self@.take(i as int)))
                + tag_row_texts(pairs));
            match &task.tags {
                Some(tags) => {
                    let id = task.id.to_text();
                    let mut j: usize = 0;
                    while j < tags.len()
                        invariant
                            j <= tags@.len(),
                            task@.tags == Some(tag_views(tags@)),
                            pairs == tag_pairs(task@),
                            id@ == uuid_text(task@.id),
                            tag_row_views(r@) == tag_row_views(done) + tag_row_texts(pairs).take(j as int),
                        decreases tags@.len() - j,
                    {
                        let ghost before = r@;
                        r.push(TagRow { task_id: id.clone(), tag: tags[j].clone() });
                        assert(tag_row_texts(pairs).take(j + 1) =~= tag_row_texts(pairs).take(j as int).push(
                            (uuid_text(task@.id), tags@[j as int]@),
                        ));
                        assert(tag_row_views(r@) =~= tag_row_views(before).push(
                            (uuid_text(task@.id), tags@[j as int]@),
                        ));
                        j = j + 1;
                    }
                    assert(tag_row_texts(pairs).take(tags@.len() as int) =~= tag_row_texts(pairs));
                },
                None => {
                    assert(tag_row_texts(pairs) =~= Seq::<(Seq<char>, Seq<char>)>::empty());
                    assert(tag_row_views(r@) =~= tag_row_views(done) + tag_row_texts(pairs));
                },
            }
            i = i + 1;
        }
        assert(self@.take(self@.len() as int) =~= self@);
        r
    }

    /// The store that the rows of the two tables describe: every task row
    /// read back with its tags (an empty set counts as none) and added in
    /// the order of the rows. Fails with `CorruptRecord` on a row that does
    /// not read back, and with the error of `add_task` on a task that
    /// cannot be added.
    pub fn load(rows: &Vec<TaskRow>, tag_rows: &Vec<TagRow>) -> (r: Result<TaskStorage, StoreError>)
        ensures
            match load_result(row_views(rows@), tag_row_views(tag_rows@)) {
                Ok(s) => r is Ok && r->Ok_0.wf() && r->Ok_0@ == s,
                Err(e) => r is Err && r->Err_0 == e,
            },
    {
        let ghost rv = row_views(rows@);
        let ghost tv = tag_row_views(tag_rows@);
        let mut store = TaskStorage::new();
        let mut i: usize = 0;
        while i < rows.len()
            invariant
                i <= rows@.len(),
                rv == row_views(rows@),
                tv == tag_row_views(tag_rows@),
                store.wf(),
                load_result(rv.take(i as int), tv) == Ok::<Seq<TaskView>, StoreError>(store@),
            decreases rows@.len() - i,
        {
            let row = &rows[i];
            assert(rv.take(i + 1).drop_last() =~= rv.take(i as int));
            assert(rv.take(i + 1).last() == row@);
            let found = tags_of(tag_rows, &row.id);
            let tags = if found.len() == 0 {
                None
            } else {
                Some(found)
            };
            let task = match decode_row(row, tags) {
                Ok(t) => t,
                Err(e) => {
                    proof {
                        lemma_load_error_stays(rv, tv, i + 1, rv.len() as int);
                        assert(rv.take(rv.len() as int) =~= rv);
                    }
                    return Err(e);
                },
            };
            match store.add_task(&task) {
                Ok(()) => {},
                Err(e) => {
                    proof {
                        lemma_load_error_stays(rv, tv, i + 1, rv.len() as int);
                        assert(rv.take(rv.len() as int) =~= rv);
                    }
                    return Err(e);
                },
            }
            i = i + 1;
        }
        assert(rv.take(rows@.len() as int) =~= rv);
        Ok(store)
    }

    /// Marks the task with this identifier as completed (refreshing its
    /// last change) and stores it, unless it is missing or completed
    /// already; in those cases the store is left as it was.
    pub fn complete_task(&mut self, id: &TaskId) -> (r: Result<Completion, StoreError>)
        requires
            old(self).wf(),
        ensures
            final(self).wf(),
            match lookup(old(self)@, id.value) {
                None => r matches Ok(Completion::NotFound) && final(self)@ == old(self)@,
                Some(t) => if t.status == Some(Status::Completed) {
                    &&& r matches Ok(Completion::AlreadyCompleted(k))
                    &&& r->Ok_0->AlreadyCompleted_0@ == t
                    &&& final(self)@ == old(self)@
                } else {
                    match r {
                        Ok(Completion::Completed(n)) => {
                            &&& n@ == (TaskView {
                                status: Some(Status::Completed),
                                updated_at: n@.updated_at,
                                ..t
                            })
                            &&& !n@.updated_at.before(t.created_at)
                            &&& update_result(old(self)@, n@) == Ok::<Seq<TaskView>, StoreError>(final(self)@)
                        },
                        Err(e) => e == StoreError::InvalidTimestamp && final(self)@ == old(self)@,
                        _ => false,
                    }
                },
            },
    {
        let found = self.get_task(id);
        match found {
            None => Ok(Completion::NotFound),
            Some(mut task) => {
                proof {
                    lemma_position(self@, id.value, 0);
                    assert(storable(task@));
                }
                if task.status == Some(Status::Completed) {
                    return Ok(Completion::AlreadyCompleted(task));
                }
                task.set_status(Some(Status::Completed));
                match self.update_task(&task) {
                    Ok(()) => Ok(Completion::Completed(task)),
                    Err(e) => Err(e),
                }
            },
        }
    }
}

} // verus!
