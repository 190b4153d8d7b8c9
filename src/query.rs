use vstd::prelude::*;
use crate::task::{tag_views, Priority, Status, Task, TaskView};
use crate::timestamp::{parsed_calendar_date, parsed_rfc3339, Timestamp};
use crate::storage::{status_is, views, TaskStorage};

verus! {

/// Why a command-line value was refused.
#[derive(Clone, Copy, Debug, PartialEq, Eq, Structural)]
pub enum InputError {
    InvalidPriority,
    InvalidStatus,
    InvalidDate,
}

/// The text that `str::to_lowercase` gives.
pub uninterp spec fn lowercase(s: Seq<char>) -> Seq<char>;

/// The text that `str::trim` gives.
pub uninterp spec fn trimmed(s: Seq<char>) -> Seq<char>;

/// Relies on `str::to_lowercase`: the result depends on the characters alone.
#[verifier::external_body]
fn to_lowercase(s: &str) -> (r: String)
    ensures
        r@ == lowercase(s@),
{
    s.to_lowercase()
}

/// Relies on `str::trim`: the text without leading and trailing white space.
#[verifier::external_body]
fn trim(s: &str) -> (r: String)
    ensures
        r@ == trimmed(s@),
{
    s.trim().to_owned()
}

/// Whether `needle` occurs in `hay` as a contiguous piece.
pub open spec fn occurs_in(needle: Seq<char>, hay: Seq<char>) -> bool {
    exists|i: int| 0 <= i && i + needle.len() <= hay.len() && #[trigger] hay.subrange(i, i + needle.len()) == needle
}

/// Relies on `str::contains` with a `&str` pattern: whether the pattern
/// occurs in the text.
#[verifier::external_body]
fn contains_text(hay: &str, needle: &str) -> (r: bool)
    ensures
        r == occurs_in(needle@, hay@),
{
    hay.contains(needle)
}

/// The pieces of `s` between commas, in order: one more piece than there
/// are commas.
pub open spec fn comma_pieces(s: Seq<char>) -> Seq<Seq<char>>
    decreases s.len(),
{
    if s.len() == 0 {
        seq![Seq::empty()]
    } else {
        let p = comma_pieces(s.drop_last());
        if s.last() == ',' {
            p.push(Seq::empty())
        } else {
            p.update(p.len() - 1, p.last().push(s.last()))
        }
    }
}

proof fn lemma_comma_pieces_len(s: Seq<char>)
    ensures
        comma_pieces(s).len() >= 1,
    decreases s.len(),
{
    if s.len() > 0 {
        lemma_comma_pieces_len(s.drop_last());
    }
}

/// Relies on `str::split` with the pattern `','`.
#[verifier::external_body]
fn split_commas(s: &str) -> (r: Vec<String>)
    ensures
        tag_views(r@) == comma_pieces(s@),
{
    s.split(',').map(|p| p.to_owned()).collect()
}

pub open spec fn priority_named(s: Seq<char>) -> Option<Priority> {
    if s == seq!['h', 'i', 'g', 'h'] {
        Some(Priority::High)
    } else if s == seq!['m', 'e', 'd', 'i', 'u', 'm'] {
        Some(Priority::Medium)
    } else if s == seq!['l', 'o', 'w'] {
        Some(Priority::Low)
    } else {
        None
    }
}

pub open spec fn status_named(s: Seq<char>) -> Option<Status> {
    if s == seq!['c', 'o', 'm', 'p', 'l', 'e', 't', 'e', 'd'] {
        Some(Status::Completed)
    } else if s == seq!['n', 'o', 't', 's', 't', 'a', 'r', 't', 'e', 'd'] || s == seq![
        'n',
        'o',
        't',
        '_',
        's',
        't',
        'a',
        'r',
        't',
        'e',
        'd',
    ] || s == seq!['n', 'o', 't', ' ', 's', 't', 'a', 'r', 't', 'e', 'd'] {
        Some(Status::NotStarted)
    } else if s == seq!['i', 'n', 'p', 'r', 'o', 'g', 'r', 'e', 's', 's'] || s == seq![
        'i',
        'n',
        '_',
        'p',
        'r',
        'o',
        'g',
        'r',
        'e',
        's',
        's',
    ] || s == seq!['i', 'n', ' ', 'p', 'r', 'o', 'g', 'r', 'e', 's', 's'] {
        Some(Status::InProgress)
    } else if s == seq!['c', 'a', 'n', 'c', 'e', 'l', 'e', 'd'] || s == seq![
        'c',
        'a',
        'n',
        'c',
        'e',
        'l',
        'l',
        'e',
        'd',
    ] {
        Some(Status::Canceled)
    } else {
        None
    }
}

/// The priority that a lower-case name gives: `high`, `medium` or `low`.
pub fn priority_from_name(name: &str) -> (r: Option<Priority>)
    ensures
        r == priority_named(name@),
{
    proof {
        reveal_strlit("high");
        reveal_strlit("medium");
        reveal_strlit("low");
        assert("high"@ =~= seq!['h', 'i', 'g', 'h']);
        assert("medium"@ =~= seq!['m', 'e', 'd', 'i', 'u', 'm']);
        assert("low"@ =~= seq!['l', 'o', 'w']);
    }
    if crate::row::same_text(name, "high") {
        Some(Priority::High)
    } else if crate::row::same_text(name, "medium") {
        Some(Priority::Medium)
    } else if crate::row::same_text(name, "low") {
        Some(Priority::Low)
    } else {
        None
    }
}

/// The status that a lower-case name gives: `completed`; `notstarted`,
/// `not_started` or `not started`; `inprogress`, `in_progress` or
/// `in progress`; `canceled` or `cancelled`.
pub fn status_from_name(name: &str) -> (r: Option<Status>)
    ensures
        r == status_named(name@),
{
    proof {
        reveal_strlit("completed");
        reveal_strlit("notstarted");
        reveal_strlit("not_started");
        reveal_strlit("not started");
        reveal_strlit("inprogress");
        reveal_strlit("in_progress");
        reveal_strlit("in progress");
        reveal_strlit("canceled");
        reveal_strlit("cancelled");
        assert("completed"@ =~= seq!['c', 'o', 'm', 'p', 'l', 'e', 't', 'e', 'd']);
        assert("notstarted"@ =~= seq!['n', 'o', 't', 's', 't', 'a', 'r', 't', 'e', 'd']);
        assert("not_started"@ =~= seq!['n', 'o', 't', '_', 's', 't', 'a', 'r', 't', 'e', 'd']);
        assert("not started"@ =~= seq!['n', 'o', 't', ' ', 's', 't', 'a', 'r', 't', 'e', 'd']);
        assert("inprogress"@ =~= seq!['i', 'n', 'p', 'r', 'o', 'g', 'r', 'e', 's', 's']);
        assert("in_progress"@ =~= seq!['i', 'n', '_', 'p', 'r', 'o', 'g', 'r', 'e', 's', 's']);
        assert("in progress"@ =~= seq!['i', 'n', ' ', 'p', 'r', 'o', 'g', 'r', 'e', 's', 's']);
        assert("canceled"@ =~= seq!['c', 'a', 'n', 'c', 'e', 'l', 'e', 'd']);
        assert("cancelled"@ =~= seq!['c', 'a', 'n', 'c', 'e', 'l', 'l', 'e', 'd']);
    }
    if crate::row::same_text(name, "completed") {
        Some(Status::Completed)
    } else if crate::row::same_text(name, "notstarted") || crate::row::same_text(name, "not_started")
        || crate::row::same_text(name, "not started") {
        Some(Status::NotStarted)
    } else if crate::row::same_text(name, "inprogress") || crate::row::same_text(name, "in_progress")
        || crate::row::same_text(name, "in progress") {
        Some(Status::InProgress)
    } else if crate::row::same_text(name, "canceled") || crate::row::same_text(name, "cancelled") {
        Some(Status::Canceled)
    } else {
        None
    }
}

/// A priority given by name, in any case.
pub fn parse_priority(s: &str) -> (r: Result<Priority, InputError>)
    ensures
        r == (match priority_named(lowercase(s@)) {
            Some(p) => Ok(p),
            None => Err(InputError::InvalidPriority),
        }),
{
    let lower = to_lowercase(s);
    match priority_from_name(lower.as_str()) {
        Some(p) => Ok(p),
        None => Err(InputError::InvalidPriority),
    }
}

/// A status given by name, in any case.
pub fn parse_status(s: &str) -> (r: Result<Status, InputError>)
    ensures
        r == (match status_named(lowercase(s@)) {
            Some(st) => Ok(st),
            None => Err(InputError::InvalidStatus),
        }),
{
    let lower = to_lowercase(s);
    match status_from_name(lower.as_str()) {
        Some(st) => Ok(st),
        None => Err(InputError::InvalidStatus),
    }
}

/// A due date given as RFC 3339 text, or else as `YYYY-MM-DD` (midnight
/// UTC).
pub fn parse_due_date(s: &str) -> (r: Result<Timestamp, InputError>)
    ensures
        r == (match Timestamp::from_parsed(parsed_rfc3339(s@)) {
            Some(t) => Ok(t),
            None => match parsed_calendar_date(s@) {
                Some(secs) => Ok(Timestamp { secs, nanos: 0 }),
                None => Err(InputError::InvalidDate),
            },
        }),
{
    match Timestamp::parse_rfc3339(s) {
        Some(t) => Ok(t),
        None => match Timestamp::parse_calendar_date(s) {
            Some(t) => Ok(t),
            None => Err(InputError::InvalidDate),
        },
    }
}

/// The non-empty pieces of a list, in order.
pub open spec fn non_empty(pieces: Seq<Seq<char>>) -> Seq<Seq<char>> {
    pieces.filter(|p: Seq<char>| p.len() > 0)
}

/// The tags of a comma-separated list: each piece trimmed, empty pieces
/// dropped.
pub fn split_tags(s: &str) -> (r: Vec<String>)
    ensures
        tag_views(r@) == non_empty(comma_pieces(s@).map_values(|p: Seq<char>| trimmed(p))),
{
    let pieces = split_commas(s);
    let ghost trimmed_all = comma_pieces(s@).map_values(|p: Seq<char>| trimmed(p));
    let ghost pred = |p: Seq<char>| p.len() > 0;
    let mut r: Vec<String> = Vec::new();
    let mut i: usize = 0;
    while i < pieces.len()
        invariant
            i <= pieces@.len(),
            tag_views(pieces@) == comma_pieces(s@),
            trimmed_all == comma_pieces(s@).map_values(|p: Seq<char>| trimmed(p)),
            pred == (|p: Seq<char>| p.len() > 0),
            trimmed_all.len() == pieces@.len(),
            tag_views(r@) == trimmed_all.take(i as int).filter(pred),
        decreases pieces@.len() - i,
    {
        let t = trim(pieces[i].as_str());
        assert(pieces@[i as int]@ == tag_views(pieces@)[i as int]);
        assert(t@ == trimmed_all[i as int]);
        proof {
            assert(trimmed_all.take(i + 1) =~= trimmed_all.take(i as int).push(trimmed_all[i as int]));
            trimmed_all.take(i as int).lemma_filter_push(trimmed_all[i as int], pred);
        }
        let ghost before = r@;
        if !t.as_str().is_empty() {
            r.push(t);
            assert(tag_views(r@) =~= tag_views(before).push(trimmed_all[i as int]));
        }
        i = i + 1;
    }
    assert(trimmed_all.take(pieces@.len() as int) =~= trimmed_all);
    r
}

/// Whether some tag, folded to lower case, equals `lower_tag`.
pub open spec fn some_tag_folds_to(tags: Option<Seq<Seq<char>>>, lower_tag: Seq<char>) -> bool {
    tags is Some && exists|k: int| 0 <= k < tags->0.len() && lowercase(#[trigger] tags->0[k]) == lower_tag
}

/// The search criteria, with the pattern and the tag already folded to
/// lower case: the pattern occurs in the folded description; the tag, if
/// given, equals some folded tag of the task; the priority, if given, is
/// the task's; and when statuses are given, the task has one of them.
pub open spec fn meets_criteria(
    t: TaskView,
    lower_pattern: Seq<char>,
    lower_tag: Option<Seq<char>>,
    priority: Option<Priority>,
    statuses: Seq<Status>,
) -> bool {
    &&& occurs_in(lower_pattern, lowercase(t.description))
    &&& match lower_tag {
        Some(x) => some_tag_folds_to(t.tags, x),
        None => true,
    }
    &&& match priority {
        Some(p) => t.priority == p,
        None => true,
    }
    &&& (statuses.len() == 0 || (t.status is Some && statuses.contains(t.status->0)))
}

pub open spec fn criteria(
    lower_pattern: Seq<char>,
    lower_tag: Option<Seq<char>>,
    priority: Option<Priority>,
    statuses: Seq<Status>,
) -> spec_fn(TaskView) -> bool {
    |t: TaskView| meets_criteria(t, lower_pattern, lower_tag, priority, statuses)
}

pub open spec fn opt_lowercase(tag: Option<Seq<char>>) -> Option<Seq<char>> {
    match tag {
        Some(x) => Some(lowercase(x)),
        None => None,
    }
}

pub open spec fn opt_str(tag: Option<&str>) -> Option<Seq<char>> {
    match tag {
        Some(x) => Some(x@),
        None => None,
    }
}

fn status_listed(statuses: &Vec<Status>, status: Status) -> (r: bool)
    ensures
        r == statuses@.contains(status),
{
    let mut i: usize = 0;
    while i < statuses.len()
        invariant
            i <= statuses@.len(),
            forall|k: int| 0 <= k < i ==> statuses@[k] != status,
        decreases statuses@.len() - i,
    {
        if statuses[i] == status {
            assert(statuses@[i as int] == status);
            return true;
        }
        i = i + 1;
    }
    false
}

fn some_tag_matches(tags: &Option<Vec<String>>, lower_tag: &str) -> (r: bool)
    ensures
        r == some_tag_folds_to(crate::task::opt_tag_views(*tags), lower_tag@),
{
    match tags {
        Some(v) => {
            let ghost tv = tag_views(v@);
            let target = lower_tag.to_owned();
            let mut i: usize = 0;
            while i < v.len()
                invariant
                    i <= v@.len(),
                    tv == tag_views(v@),
                    crate::task::opt_tag_views(*tags) == Some(tv),
                    target@ == lower_tag@,
                    forall|k: int| 0 <= k < i ==> lowercase(tv[k]) != lower_tag@,
                decreases v@.len() - i,
            {
                let folded = to_lowercase(v[i].as_str());
                assert(tv[i as int] == v@[i as int]@);
                if folded == target {
                    let ghost ts = crate::task::opt_tag_views(*tags);
                    assert(ts->0 == tv);
                    assert(0 <= i < ts->0.len() && lowercase(ts->0[i as int]) == lower_tag@);
                    return true;
                }
                i = i + 1;
            }
            false
        },
        None => false,
    }
}

/// Whether a task meets the search criteria; the pattern and the tag come
/// folded to lower case.
pub fn task_matches(
    task: &Task,
    lower_pattern: &str,
    lower_tag: Option<&str>,
    priority: Option<Priority>,
    statuses: &Vec<Status>,
) -> (r: bool)
    ensures
        r == meets_criteria(task@, lower_pattern@, opt_str(lower_tag), priority, statuses@),
{
    let description = to_lowercase(task.description.as_str());
    if !contains_text(description.as_str(), lower_pattern) {
        return false;
    }
    match lower_tag {
        Some(x) => {
            if !some_tag_matches(&task.tags, x) {
                return false;
            }
        },
        None => {},
    }
    match priority {
        Some(p) => {
            if task.priority != p {
                return false;
            }
        },
        None => {},
    }
    if statuses.len() == 0 {
        return true;
    }
    match task.status {
        Some(st) => status_listed(statuses, st),
        None => false,
    }
}

/// The tasks, in their order, that meet the search criteria: the pattern
/// and the tag are compared without regard to case.
pub fn search_tasks(
    tasks: &Vec<Task>,
    pattern: &str,
    tag: Option<&str>,
    priority: Option<Priority>,
    statuses: &Vec<Status>,
) -> (r: Vec<Task>)
    ensures
        views(r@) == views(tasks@).filter(
            criteria(lowercase(pattern@), opt_lowercase(opt_str(tag)), priority, statuses@),
        ),
{
    let lower_pattern = to_lowercase(pattern);
    let lower_tag: Option<String> = match tag {
        Some(x) => Some(to_lowercase(x)),
        None => None,
    };
    let ghost pred = criteria(lowercase(pattern@), opt_lowercase(opt_str(tag)), priority, statuses@);
    let ghost s = views(tasks@);
    let mut r: Vec<Task> = Vec::new();
    let mut i: usize = 0;
    while i < tasks.len()
        invariant
            i <= tasks@.len(),
            s == views(tasks@),
            lower_pattern@ == lowercase(pattern@),
            match lower_tag {
                Some(x) => opt_lowercase(opt_str(tag)) == Some(x@),
                None => opt_lowercase(opt_str(tag)) is None,
            },
            pred == criteria(lowercase(pattern@), opt_lowercase(opt_str(tag)), priority, statuses@),
            views(r@) == s.take(i as int).filter(pred),
        decreases tasks@.len() - i,
    {
        proof {
            assert(s.take(i + 1) =~= s.take(i as int).push(s[i as int]));
            s.take(i as int).lemma_filter_push(s[i as int], pred);
        }
        let keep = match &lower_tag {
            Some(x) => task_matches(&tasks[i], lower_pattern.as_str(), Some(x.as_str()), priority, statuses),
            None => task_matches(&tasks[i], lower_pattern.as_str(), None, priority, statuses),
        };
        let ghost before = r@;
        if keep {
            r.push(tasks[i].clone());
            assert(views(r@) =~= views(before).push(s[i as int]));
        }
        i = i + 1;
    }
    assert(s.take(s.len() as int) =~= s);
    r
}

/// The tasks of each listed status in turn, each group newest first.
pub open spec fn by_statuses(s: Seq<TaskView>, statuses: Seq<Status>) -> Seq<TaskView>
    decreases statuses.len(),
{
    if statuses.len() == 0 {
        Seq::empty()
    } else {
        by_statuses(s, statuses.drop_last()) + s.filter(status_is(statuses.last()))
    }
}

/// The tasks to list: all of them, newest first, when no status is given;
/// otherwise the tasks of each given status in turn.
pub fn list_tasks(storage: &TaskStorage, statuses: &Vec<Status>) -> (r: Vec<Task>)
    requires
        storage.wf(),
    ensures
        views(r@) == if statuses@.len() == 0 {
            storage@
        } else {
            by_statuses(storage@, statuses@)
        },
{
    if statuses.len() == 0 {
        return storage.get_all_tasks();
    }
    let mut r: Vec<Task> = Vec::new();
    let mut i: usize = 0;
    while i < statuses.len()
        invariant
            storage.wf(),
            i <= statuses@.len(),
            views(r@) == by_statuses(storage@, statuses@.take(i as int)),
        decreases statuses@.len() - i,
    {
        let mut part = storage.get_tasks_by_status(&statuses[i]);
        let ghost before = r@;
        let ghost added = part@;
        r.append(&mut part);
        assert(statuses@.take(i + 1).drop_last() =~= statuses@.take(i as int));
        assert(views(r@) =~= views(before) + views(added));
        i = i + 1;
    }
    assert(statuses@.take(statuses@.len() as int) =~= statuses@);
    r
}

} // verus!
